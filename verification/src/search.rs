//! Searches among the client's controls: for the input box, for a session by its name, and
//! for a message that was just sent. A control is named by a number that whoever reads the
//! controls gives it.

use vstd::prelude::*;
use vstd::string::*;

use crate::text::{starts_with, text_contains, text_eq, text_len, trim};
use crate::wechat::{
    is_chat_frame, is_main_frame, is_text_field, is_unread_mark, is_wechat, is_wechat_main,
    SessionInfo,
};

verus! {

/// Where a control stands on the screen.
#[derive(Clone, Copy, Debug, PartialEq, Eq, Structural)]
pub struct BBox {
    pub x: i32,
    pub y: i32,
    pub w: i32,
    pub h: i32,
}

// ---------------------------------------------------------------------------
// The input box
// ---------------------------------------------------------------------------

/// How many levels below the client are searched for the input box.
pub const EDIT_DEPTH: usize = 18;

/// How many children of a control are looked at.
pub const EDIT_CHILDREN: usize = 50;

/// After how many controls the search ends.
pub const EDIT_VISITS: usize = 500;

/// A box that is large enough for a message.
pub open spec fn large_enough(bbox: BBox) -> bool {
    bbox.w >= 120 && bbox.h >= 40
}

/// More than the area of any box.
pub const ANY_AREA: i128 = 4611686018427387904;

/// How good a box is: the lower it ends the better, and then the larger.
pub open spec fn box_score(bbox: BBox) -> int {
    (bbox.y + bbox.h) * ANY_AREA + bbox.w * bbox.h
}

/// Whether a control can be the input box.
pub open spec fn can_be_edit_box(role: Seq<char>, bbox: Option<BBox>) -> bool {
    crate::wechat::text_field(role) && bbox is Some && large_enough(bbox->0)
}

/// The search for the input box. The client has a search box at its top as well, so that
/// the lowest text field is taken.
#[derive(Debug)]
pub struct EditBoxSearch {
    frontier: Vec<usize>,
    next: Vec<usize>,
    best: Option<(usize, i128)>,
    visited: usize,
    depth: usize,
}

/// What an [`EditBoxSearch`] knows.
pub struct EditSearchView {
    /// The controls whose children are looked at now.
    pub frontier: Seq<usize>,
    /// Those whose children are looked at on the next level.
    pub next: Seq<usize>,
    pub best: Option<(usize, int)>,
    pub visited: nat,
    pub depth: nat,
}

impl View for EditBoxSearch {
    type V = EditSearchView;

    closed spec fn view(&self) -> EditSearchView {
        EditSearchView {
            frontier: self.frontier@,
            next: self.next@,
            best: match self.best {
                Some((node, score)) => Some((node, score as int)),
                None => None,
            },
            visited: self.visited as nat,
            depth: self.depth as nat,
        }
    }
}

/// The better of what was found so far and a control; of two as good ones the first.
pub open spec fn better_box(
    best: Option<(usize, int)>,
    node: usize,
    role: Seq<char>,
    bbox: Option<BBox>,
) -> Option<(usize, int)> {
    if !can_be_edit_box(role, bbox) {
        best
    } else {
        match best {
            Some((found, score)) => if box_score(bbox->0) > score {
                Some((node, box_score(bbox->0)))
            } else {
                best
            },
            None => Some((node, box_score(bbox->0))),
        }
    }
}

/// What a search knows after a look at a child.
pub open spec fn looked_at(
    search: EditSearchView,
    node: usize,
    role: Seq<char>,
    bbox: Option<BBox>,
    has_children: bool,
) -> EditSearchView {
    EditSearchView {
        next: if has_children {
            search.next.push(node)
        } else {
            search.next
        },
        best: better_box(search.best, node, role, bbox),
        visited: search.visited + 1,
        ..search
    }
}

/// What a search knows one level further down.
pub open spec fn one_down(search: EditSearchView) -> EditSearchView {
    EditSearchView { frontier: search.next, next: seq![], depth: search.depth + 1, ..search }
}

/// Whether another level is searched.
pub open spec fn another_level(search: EditSearchView) -> bool {
    search.depth < EDIT_DEPTH && search.frontier.len() > 0 && search.visited < EDIT_VISITS
}

impl EditBoxSearch {
    /// Begins at the client.
    pub fn new(app: usize) -> (search: EditBoxSearch)
        ensures
            search@ == (EditSearchView {
                frontier: seq![app],
                next: seq![],
                best: None,
                visited: 0,
                depth: 0,
            }),
    {
        let mut frontier: Vec<usize> = Vec::new();
        frontier.push(app);
        proof {
            assert(frontier@ =~= seq![app]);
        }
        EditBoxSearch { frontier, next: Vec::new(), best: None, visited: 0, depth: 0 }
    }

    /// Whether there is a level to search.
    pub fn goes_on(&self) -> (more: bool)
        ensures
            more == another_level(self@),
    {
        self.depth < EDIT_DEPTH && self.frontier.len() > 0 && self.visited < EDIT_VISITS
    }

    /// The controls whose children are looked at on this level.
    pub fn level(&self) -> (nodes: &Vec<usize>)
        ensures
            nodes@ == self@.frontier,
    {
        &self.frontier
    }

    /// Looks at a child. Returns whether the next child of the same control is looked at.
    pub fn offer(&mut self, node: usize, role: &str, bbox: Option<BBox>, has_children: bool) -> (more:
        bool)
        requires
            old(self)@.visited < usize::MAX,
            can_be_edit_box(role@, bbox) ==> is_coordinate(bbox->0.y + bbox->0.h),
        ensures
            final(self)@ == looked_at(old(self)@, node, role@, bbox, has_children),
            more == (final(self)@.visited < EDIT_VISITS),
    {
        self.visited = self.visited + 1;
        if is_text_field(role) {
            if let Some(b) = bbox {
                if b.w >= 120 && b.h >= 40 {
                    proof {
                        assert(0 <= b.w * b.h <= 0x7fff_ffff * 0x7fff_ffff) by (nonlinear_arith)
                            requires
                                0 <= b.w <= 0x7fff_ffff,
                                0 <= b.h <= 0x7fff_ffff,
                        ;
                    }
                    let bottom: i128 = (b.y + b.h) as i128;
                    let area: i128 = b.w as i128 * b.h as i128;
                    let score: i128 = bottom * ANY_AREA + area;
                    let better: bool = match self.best {
                        Some((_, current)) => score > current,
                        None => true,
                    };
                    if better {
                        self.best = Some((node, score));
                    }
                }
            }
        }
        if has_children {
            self.next.push(node);
        }
        self.visited < EDIT_VISITS
    }

    /// Goes one level down.
    pub fn descend(&mut self)
        requires
            old(self)@.depth < EDIT_DEPTH,
        ensures
            final(self)@ == one_down(old(self)@),
    {
        let mut next: Vec<usize> = Vec::new();
        std::mem::swap(&mut next, &mut self.next);
        self.frontier = next;
        self.depth = self.depth + 1;
    }

    /// The input box, if one was found.
    pub fn found(&self) -> (node: Option<usize>)
        ensures
            node == match self@.best {
                Some((found, score)) => Some(found),
                None => None,
            },
    {
        match self.best {
            Some((node, _)) => Some(node),
            None => None,
        }
    }
}

/// What is found is never worse than what was found before, and never worse than a control
/// that was looked at and can be the input box.
pub proof fn best_box_only_improves(
    best: Option<(usize, int)>,
    node: usize,
    role: Seq<char>,
    bbox: Option<BBox>,
)
    ensures
        ({
            let after = better_box(best, node, role, bbox);
            &&& best is Some ==> after is Some && after.unwrap().1 >= best.unwrap().1
            &&& can_be_edit_box(role, bbox) ==> after is Some && after.unwrap().1 >= box_score(
                bbox->0,
            )
            &&& after is Some ==> after == best || (after == Some((node, box_score(bbox->0)))
                && can_be_edit_box(role, bbox))
        }),
{
}

/// A box that ends lower is better, whatever the sizes.
pub proof fn lower_boxes_are_better(a: BBox, b: BBox)
    requires
        large_enough(a),
        large_enough(b),
        a.y + a.h > b.y + b.h,
    ensures
        box_score(a) > box_score(b),
{
    assert(b.w * b.h <= 0x7fff_ffff * 0x7fff_ffff) by (nonlinear_arith)
        requires
            0 <= b.w <= 0x7fff_ffff,
            0 <= b.h <= 0x7fff_ffff,
    ;
    assert(a.w * a.h > 0) by (nonlinear_arith)
        requires
            a.w >= 120,
            a.h >= 40,
    ;
}

/// A main window that has its tool bar.
pub open spec fn wide_frame(frame: BBox) -> bool {
    frame.w >= 700 && frame.h >= 500
}

/// Where the button for files stands: in the tool bar at the bottom of the main window, or
/// at the lower edge of the input box where the window is not recognised.
pub open spec fn file_button_at(frame: Option<BBox>, edit: Option<BBox>) -> Option<(int, int)> {
    if frame is Some && wide_frame(frame->0) {
        Some((frame->0.x + 403, frame->0.y + frame->0.h - 32))
    } else if edit is Some && large_enough(edit->0) {
        Some((edit->0.x + 82, edit->0.y + edit->0.h - 18))
    } else {
        None
    }
}

/// Whether a number is one that a place on the screen can have.
pub open spec fn is_coordinate(n: int) -> bool {
    i32::MIN <= n <= i32::MAX
}

/// Where the button for files stands. What it stands in has to end on the screen.
pub fn file_button(frame: Option<BBox>, edit: Option<BBox>) -> (place: Option<(i32, i32)>)
    requires
        frame is Some && wide_frame(frame->0) ==> is_coordinate(frame->0.x + 403)
            && is_coordinate(frame->0.y + frame->0.h),
        edit is Some && large_enough(edit->0) && !(frame is Some && wide_frame(frame->0))
            ==> is_coordinate(edit->0.x + 82) && is_coordinate(edit->0.y + edit->0.h),
    ensures
        match place {
            Some((x, y)) => file_button_at(frame, edit) == Some((x as int, y as int)),
            None => file_button_at(frame, edit) is None,
        },
{
    if let Some(f) = frame {
        if f.w >= 700 && f.h >= 500 {
            return Some((f.x + 403, f.y + f.h - 32));
        }
    }
    if let Some(e) = edit {
        if e.w >= 120 && e.h >= 40 {
            return Some((e.x + 82, e.y + e.h - 18));
        }
    }
    None
}

/// Half of a length, rounded towards zero.
pub open spec fn half(n: int) -> int {
    if n < 0 {
        -((-n) / 2)
    } else {
        n / 2
    }
}

fn at_least_zero(n: i64) -> (kept: i32)
    requires
        n <= i32::MAX,
    ensures
        kept == if n < 0 {
            0
        } else {
            n as int
        },
{
    if n < 0 {
        0
    } else {
        n as i32
    }
}

/// Where the title bar of a window is clicked.
pub open spec fn bar_place(frame: BBox) -> (int, int) {
    let x = frame.x + half(frame.w as int);
    let y = frame.y + 15;
    (
        if x < 0 {
            0
        } else {
            x
        },
        if y < 0 {
            0
        } else {
            y
        },
    )
}

/// Where the main window is clicked to bring it to the front: in the middle of its title
/// bar, and never left of or above the screen.
pub fn title_bar_place(frame: BBox) -> (place: (i32, i32))
    requires
        is_coordinate(frame.x + half(frame.w as int)),
        is_coordinate(frame.y + 15),
    ensures
        place.0 == bar_place(frame).0,
        place.1 == bar_place(frame).1,
{
    let width: i64 = frame.w as i64;
    let middle: i64 = if width < 0 {
        0 - (0 - width) / 2
    } else {
        width / 2
    };
    (at_least_zero(frame.x as i64 + middle), at_least_zero(frame.y as i64 + 15))
}

// ---------------------------------------------------------------------------
// Sessions
// ---------------------------------------------------------------------------

/// How many levels of the list are searched for a session.
pub const SESSION_DEPTH: usize = 6;

/// How many children of a control are looked at for a session.
pub const SESSION_CHILDREN: usize = 30;

/// How many sessions of the list are told.
pub const LISTED_SESSIONS: usize = 50;

/// How many parts of a session are looked at for the mark of unread messages.
pub const SESSION_PARTS: usize = 10;

/// A walk over controls, one level after the other and a limited number of levels deep.
#[derive(Debug)]
pub struct LevelWalk {
    level: Vec<usize>,
    next: Vec<usize>,
    left: usize,
}

/// Where a [`LevelWalk`] is: the controls of the level whose children are looked at, those
/// that were kept for the next one, and how many levels are left.
pub struct WalkView {
    pub level: Seq<usize>,
    pub next: Seq<usize>,
    pub left: nat,
}

impl View for LevelWalk {
    type V = WalkView;

    closed spec fn view(&self) -> WalkView {
        WalkView { level: self.level@, next: self.next@, left: self.left as nat }
    }
}

impl LevelWalk {
    /// Begins at a control.
    pub fn new(root: usize, depth: usize) -> (walk: LevelWalk)
        ensures
            walk@ == (WalkView { level: seq![root], next: seq![], left: depth as nat }),
    {
        let mut level: Vec<usize> = Vec::new();
        level.push(root);
        proof {
            assert(level@ =~= seq![root]);
        }
        LevelWalk { level, next: Vec::new(), left: depth }
    }

    /// Whether there is a level to look at.
    pub fn goes_on(&self) -> (more: bool)
        ensures
            more == (self@.left > 0 && self@.level.len() > 0),
    {
        self.left > 0 && self.level.len() > 0
    }

    /// The controls whose children are looked at on this level.
    pub fn level(&self) -> (nodes: &Vec<usize>)
        ensures
            nodes@ == self@.level,
    {
        &self.level
    }

    /// Looks at a child: one that holds others is kept for the next level.
    pub fn offer(&mut self, node: usize, structural: bool)
        ensures
            final(self)@ == (WalkView {
                next: if structural {
                    old(self)@.next.push(node)
                } else {
                    old(self)@.next
                },
                ..old(self)@
            }),
    {
        if structural {
            self.next.push(node);
        }
    }

    /// Goes one level down.
    pub fn descend(&mut self)
        requires
            old(self)@.left > 0,
        ensures
            final(self)@ == (WalkView {
                level: old(self)@.next,
                next: seq![],
                left: (old(self)@.left - 1) as nat,
            }),
    {
        let mut next: Vec<usize> = Vec::new();
        std::mem::swap(&mut next, &mut self.next);
        self.level = next;
        self.left = self.left - 1;
    }
}

/// The search for a session by its name.
#[derive(Debug)]
pub struct SessionSearch {
    name: String,
    begins: Option<usize>,
    contains: Option<usize>,
}

/// What a [`SessionSearch`] knows: the first session that begins with the name, and the
/// first other one that contains it.
pub struct SessionSearchView {
    pub name: Seq<char>,
    pub begins: Option<usize>,
    pub contains: Option<usize>,
}

impl View for SessionSearch {
    type V = SessionSearchView;

    closed spec fn view(&self) -> SessionSearchView {
        SessionSearchView { name: self.name@, begins: self.begins, contains: self.contains }
    }
}

/// What the search knows after one more control, whose name without white space around it
/// is `item`. A control without a name changes nothing.
pub open spec fn after_item(search: SessionSearchView, node: usize, item: Seq<char>) -> SessionSearchView {
    if item.len() == 0 {
        search
    } else if search.begins is None && crate::text::has_prefix(item, search.name) {
        SessionSearchView { begins: Some(node), ..search }
    } else if search.contains is None && crate::text::contains_text(item, search.name) {
        SessionSearchView { contains: Some(node), ..search }
    } else {
        search
    }
}

impl SessionSearch {
    /// Begins the search for a name.
    pub fn new(name: &str) -> (search: SessionSearch)
        ensures
            search@ == (SessionSearchView { name: name@, begins: None, contains: None }),
    {
        SessionSearch { name: name.to_owned(), begins: None, contains: None }
    }

    /// Looks at a control. Returns whether it is the session itself, so that the search is
    /// over.
    pub fn offer(&mut self, node: usize, item_name: &str) -> (exact: bool)
        ensures
            ({
                let item = crate::text::trimmed(item_name@);
                &&& exact == (item.len() > 0 && item == old(self)@.name)
                &&& !exact ==> final(self)@ == after_item(old(self)@, node, item)
                &&& exact ==> final(self)@ == old(self)@
            }),
    {
        let item = trim(item_name);
        if item.is_empty() {
            return false;
        }
        if text_eq(item, self.name.as_str()) {
            return true;
        }
        if self.begins.is_none() && starts_with(item, self.name.as_str()) {
            self.begins = Some(node);
        } else if self.contains.is_none() && text_contains(item, self.name.as_str()) {
            self.contains = Some(node);
        }
        false
    }

    /// What is taken where no session has exactly the name: one that begins with it goes
    /// before one that contains it.
    pub fn found(&self) -> (node: Option<usize>)
        ensures
            node == if self@.begins is Some {
                self@.begins
            } else {
                self@.contains
            },
    {
        match self.begins {
            Some(node) => Some(node),
            None => self.contains,
        }
    }
}

/// What a search among controls finds, one after the other: the first that has exactly the
/// name, else what the search knows at the end.
pub open spec fn found_among(
    search: SessionSearchView,
    items: Seq<(usize, Seq<char>)>,
) -> Option<usize>
    decreases items.len(),
{
    if items.len() == 0 {
        if search.begins is Some {
            search.begins
        } else {
            search.contains
        }
    } else if items[0].1.len() > 0 && items[0].1 == search.name {
        Some(items[0].0)
    } else {
        found_among(after_item(search, items[0].0, items[0].1), items.skip(1))
    }
}

/// A session that has exactly the name is found, wherever it stands.
pub proof fn exact_names_win(search: SessionSearchView, items: Seq<(usize, Seq<char>)>, k: int)
    requires
        0 <= k < items.len(),
        items[k].1 == search.name,
        search.name.len() > 0,
        forall|i: int| 0 <= i < k ==> (#[trigger] items[i]).1 != search.name,
    ensures
        found_among(search, items) == Some(items[k].0),
    decreases items.len(),
{
    if k > 0 {
        assert(items[0].1 != search.name);
        let rest = items.skip(1);
        assert(rest[k - 1] == items[k]);
        assert forall|i: int| 0 <= i < k - 1 implies (#[trigger] rest[i]).1 != search.name by {
            assert(items[i + 1].1 != search.name);
        }
        exact_names_win(after_item(search, items[0].0, items[0].1), rest, k - 1);
    }
}

/// What is found contains the name that was searched for.
pub proof fn found_sessions_contain_the_name(
    search: SessionSearchView,
    items: Seq<(usize, Seq<char>)>,
)
    requires
        search.begins is None,
        search.contains is None,
        found_among(search, items) is Some,
    ensures
        exists|k: int|
            0 <= k < items.len() && found_among(search, items) == Some((#[trigger] items[k]).0)
                && crate::text::contains_text(items[k].1, search.name),
{
    assert(items.skip(0) =~= items);
    lemma_found_contains(search, items, items, 0);
}

/// A place at which a control that contains the name was looked at.
pub open spec fn seen_containing(
    items: Seq<(usize, Seq<char>)>,
    name: Seq<char>,
    node: usize,
) -> bool {
    exists|k: int|
        0 <= k < items.len() && node == (#[trigger] items[k]).0 && crate::text::contains_text(
            items[k].1,
            name,
        )
}

proof fn lemma_found_contains(
    search: SessionSearchView,
    items: Seq<(usize, Seq<char>)>,
    all: Seq<(usize, Seq<char>)>,
    from: int,
)
    requires
        0 <= from <= all.len(),
        items == all.skip(from),
        search.begins is Some ==> seen_containing(all, search.name, search.begins->0),
        search.contains is Some ==> seen_containing(all, search.name, search.contains->0),
    ensures
        found_among(search, items) is Some ==> seen_containing(
            all,
            search.name,
            found_among(search, items)->0,
        ),
    decreases items.len(),
{
    if items.len() > 0 {
        let item = items[0].1;
        assert(items[0] == all[from]);
        if item == search.name {
            assert(item.subrange(0, item.len() as int) =~= search.name);
            assert(crate::text::occurs_at(item, search.name, 0));
            assert(crate::text::contains_text(all[from].1, search.name));
        }
        if crate::text::has_prefix(item, search.name) {
            assert(crate::text::occurs_at(item, search.name, 0));
            assert(crate::text::contains_text(all[from].1, search.name));
        }
        if item.len() > 0 && item == search.name {
        } else {
            assert(items.skip(1) =~= all.skip(from + 1));
            lemma_found_contains(
                after_item(search, items[0].0, item),
                items.skip(1),
                all,
                from + 1,
            );
        }
    }
}

/// A session of the list: its name, and its parts with their roles and names.
#[derive(Debug)]
pub struct SessionItem {
    pub name: String,
    pub parts: Vec<(String, String)>,
}

/// Whether a session shows the mark of unread messages, among its first parts.
pub open spec fn shows_unread(parts: Seq<(String, String)>) -> bool {
    exists|k: int|
        0 <= k < parts.len() && k < SESSION_PARTS && crate::wechat::unread_mark(
            (#[trigger] parts[k]).0@,
            parts[k].1@,
        )
}

/// The sessions of the list that have a name of more than one byte, in order.
pub open spec fn listed(items: Seq<SessionItem>) -> Seq<(Seq<char>, bool)>
    decreases items.len(),
{
    if items.len() == 0 {
        seq![]
    } else {
        let before = listed(items.drop_last());
        let name = crate::text::trimmed(items.last().name@);
        if crate::text::byte_len(name) > 1 {
            before.push((name, shows_unread(items.last().parts@)))
        } else {
            before
        }
    }
}

/// As many sessions as are told, from the top of the list.
pub open spec fn top_of(items: Seq<SessionItem>) -> Seq<SessionItem> {
    items.take(
        if items.len() < LISTED_SESSIONS {
            items.len() as int
        } else {
            LISTED_SESSIONS as int
        },
    )
}

pub open spec fn infos_view(infos: Seq<SessionInfo>) -> Seq<(Seq<char>, bool)> {
    infos.map_values(|s: SessionInfo| (s.name@, s.has_new))
}

/// Whether a session shows the mark of unread messages.
pub fn check_session_has_new(parts: &Vec<(String, String)>) -> (has_new: bool)
    ensures
        has_new == shows_unread(parts@),
{
    let mut i: usize = 0;
    while i < parts.len() && i < SESSION_PARTS
        invariant
            i <= parts@.len(),
            i <= SESSION_PARTS,
            forall|k: int|
                0 <= k < i ==> !crate::wechat::unread_mark(
                    (#[trigger] parts@[k]).0@,
                    parts@[k].1@,
                ),
        decreases parts@.len() - i,
    {
        if is_unread_mark(parts[i].0.as_str(), parts[i].1.as_str()) {
            return true;
        }
        i = i + 1;
    }
    false
}

/// The sessions at the top of the list.
pub fn list_sessions(items: &Vec<SessionItem>) -> (sessions: Vec<SessionInfo>)
    ensures
        infos_view(sessions@) == listed(top_of(items@)),
{
    let ghost top = top_of(items@);
    let count: usize = if items.len() < LISTED_SESSIONS {
        items.len()
    } else {
        LISTED_SESSIONS
    };
    let mut sessions: Vec<SessionInfo> = Vec::new();
    let mut i: usize = 0;
    while i < count
        invariant
            i <= count,
            count == top.len(),
            count <= items@.len(),
            top == items@.take(count as int),
            infos_view(sessions@) =~= listed(top.take(i as int)),
        decreases count - i,
    {
        let ghost before = infos_view(sessions@);
        proof {
            assert(top.take(i + 1).drop_last() =~= top.take(i as int));
            assert(top.take(i + 1).last() == items@[i as int]);
        }
        let name = trim(items[i].name.as_str());
        if text_len(name) > 1 {
            let has_new = check_session_has_new(&items[i].parts);
            sessions.push(SessionInfo { name: name.to_owned(), has_new });
            proof {
                assert(infos_view(sessions@) =~= before.push((name@, has_new)));
            }
        }
        i = i + 1;
    }
    proof {
        assert(top.take(count as int) =~= top);
    }
    sessions
}

// ---------------------------------------------------------------------------
// Sent messages on the screen
// ---------------------------------------------------------------------------

/// How many of the last messages are looked at.
pub const CHECKED_MESSAGES: i32 = 3;

/// The first of the messages that are looked at, where there are `count`.
pub open spec fn checked_from(count: int) -> int {
    if count < CHECKED_MESSAGES {
        0
    } else {
        count - CHECKED_MESSAGES
    }
}

/// The first message that is looked at, of `count`.
pub fn first_checked(count: i32) -> (first: i32)
    requires
        count > 0,
    ensures
        first == checked_from(count as int),
{
    if count < CHECKED_MESSAGES {
        0
    } else {
        count - CHECKED_MESSAGES
    }
}

/// Whether a message on the screen is the text that was sent: one contains the other, and
/// neither is much longer than the other.
pub open spec fn shows(item: Seq<char>, text: Seq<char>) -> bool {
    let inner = crate::text::trimmed(item);
    &&& inner.len() > 0
    &&& crate::text::byte_len(inner) <= crate::text::byte_len(text) * 2 + 10
    &&& crate::text::byte_len(text) <= crate::text::byte_len(inner) * 2 + 10
    &&& crate::text::contains_text(inner, text) || crate::text::contains_text(text, inner)
}

/// Whether a message on the screen is the text that was sent.
fn shows_text(item: &str, text: &str) -> (found: bool)
    ensures
        found == shows(item@, text@),
{
    let inner = trim(item);
    if inner.is_empty() {
        return false;
    }
    let a: u128 = text_len(inner) as u128;
    let b: u128 = text_len(text) as u128;
    a <= b * 2 + 10 && b <= a * 2 + 10 && (text_contains(inner, text) || text_contains(
        text,
        inner,
    ))
}

/// Whether the text that was sent is one of the last messages on the screen.
pub fn verify_sent_in_list(last: &Vec<String>, text: &str) -> (found: bool)
    ensures
        found == exists|k: int| 0 <= k < last@.len() && shows((#[trigger] last@[k])@, text@),
{
    let mut i: usize = 0;
    while i < last.len()
        invariant
            i <= last@.len(),
            forall|k: int| 0 <= k < i ==> !shows((#[trigger] last@[k])@, text@),
        decreases last@.len() - i,
    {
        if shows_text(last[i].as_str(), text) {
            return true;
        }
        i = i + 1;
    }
    false
}

// ---------------------------------------------------------------------------
// Windows
// ---------------------------------------------------------------------------

/// How many children of the client are looked at for its main window.
pub const MAIN_CHILDREN: usize = 10;

/// How many children of the client are looked at for a chat window.
pub const CHAT_CHILDREN: usize = 20;

/// How many frames of another program are looked at for a chat window.
pub const CHAT_FRAMES: usize = 5;

/// A child of the client: its role and name, and where it stands.
#[derive(Debug)]
pub struct AppChild {
    pub role: String,
    pub name: String,
    pub bbox: Option<BBox>,
}

/// Whether a child is the main window, and its place is known.
pub open spec fn placed_main_frame(child: AppChild) -> bool {
    &&& child.role@ == "frame"@
    &&& crate::wechat::names_main_window(
        child.name@,
        crate::outside::unicode_lowercase(child.name@),
    )
    &&& child.bbox is Some
}

/// Where the main window stands: the first of the client's first children that is it and has
/// a place. The search ends at a child that cannot be read.
pub open spec fn main_window_among(children: Seq<Option<AppChild>>, left: nat) -> Option<BBox>
    decreases children.len(),
{
    if children.len() == 0 || left == 0 {
        None
    } else {
        match children[0] {
            None => None,
            Some(child) => if placed_main_frame(child) {
                child.bbox
            } else {
                main_window_among(children.skip(1), (left - 1) as nat)
            },
        }
    }
}

/// Where the main window stands. `children` are the client's children, in order, each where
/// it can be read.
pub fn main_window_bbox(children: &Vec<Option<AppChild>>) -> (place: Option<BBox>)
    ensures
        place == main_window_among(children@, MAIN_CHILDREN as nat),
{
    let mut i: usize = 0;
    proof {
        assert(children@.skip(0) =~= children@);
    }
    while i < children.len() && i < MAIN_CHILDREN
        invariant
            i <= children@.len(),
            i <= MAIN_CHILDREN,
            main_window_among(children@, MAIN_CHILDREN as nat) == main_window_among(
                children@.skip(i as int),
                (MAIN_CHILDREN - i) as nat,
            ),
        decreases children@.len() - i,
    {
        proof {
            assert(children@.skip(i as int)[0] == children@[i as int]);
            assert(children@.skip(i as int).skip(1) =~= children@.skip(i + 1));
        }
        match &children[i] {
            None => {
                return None;
            },
            Some(child) => {
                if is_main_frame(child.role.as_str(), child.name.as_str()) {
                    if let Some(bbox) = child.bbox {
                        return Some(bbox);
                    }
                }
            },
        }
        i = i + 1;
    }
    None
}

/// Whether `found` is the first program on the list that is named like the client.
pub open spec fn client_among(names: Seq<String>, found: Option<usize>) -> bool {
    match found {
        Some(i) => {
            &&& i < names.len()
            &&& named_like_client(names[i as int]@)
            &&& forall|k: int| 0 <= k < i ==> !named_like_client((#[trigger] names[k])@)
        },
        None => forall|k: int| 0 <= k < names.len() ==> !named_like_client((#[trigger] names[k])@),
    }
}

/// Looks for the client among the programs of the registry, by their names.
pub fn scan_registry(names: &Vec<String>) -> (found: Option<usize>)
    ensures
        client_among(names@, found),
{
    let mut i: usize = 0;
    while i < names.len()
        invariant
            i <= names@.len(),
            forall|k: int| 0 <= k < i ==> !named_like_client((#[trigger] names@[k])@),
        decreases names@.len() - i,
    {
        if is_wechat(names[i].as_str()) {
            return Some(i);
        }
        i = i + 1;
    }
    None
}

/// Whether a program is named like the client.
pub open spec fn named_like_client(name: Seq<char>) -> bool {
    crate::wechat::names_client(name, crate::outside::unicode_lowercase(name))
}

/// A program of the registry: its name, and the roles and names of its children.
#[derive(Debug)]
pub struct RegistryApp {
    pub name: String,
    pub children: Vec<(String, String)>,
}

/// Where a chat window was found.
#[derive(Clone, Copy, Debug, PartialEq, Eq, Structural)]
pub enum ChatWindowPlace {
    /// Which child of the client it is.
    Child(usize),
    /// Which program of the registry has it, and which child of it it is.
    Registered(usize, usize),
    NotThere,
}

/// Whether a child of the client is the window of a chat.
pub open spec fn child_is_window(child: AppChild, who: Seq<char>) -> bool {
    crate::wechat::chat_frame(
        child.role@,
        child.name@,
        crate::outside::unicode_lowercase(child.name@),
        who,
    )
}

/// Whether a program is named after a chat.
pub open spec fn app_is_chat(app: RegistryApp, who: Seq<char>) -> bool {
    crate::text::contains_text(app.name@, who) && !crate::wechat::names_main_window(
        app.name@,
        crate::outside::unicode_lowercase(app.name@),
    )
}

/// Whether a child of a program is the window of a chat.
pub open spec fn frame_is_window(app: RegistryApp, j: int, who: Seq<char>) -> bool {
    app_is_chat(app, who) && app.children@[j].0@ == "frame"@ && crate::text::contains_text(
        app.children@[j].1@,
        who,
    )
}

/// Whether none of the first `i` programs has the window of a chat among its first children.
pub open spec fn no_window_before(apps: Seq<RegistryApp>, i: int, who: Seq<char>) -> bool {
    forall|a: int, b: int|
        0 <= a < i && 0 <= b < apps[a].children@.len() && b < CHAT_FRAMES
            ==> !#[trigger] frame_is_window(apps[a], b, who)
}

/// Whether a chat window stands at that place: among the client's own children first, among
/// the windows of other programs behind them, each time the first that is the chat's.
pub open spec fn stands_at(
    children: Seq<AppChild>,
    apps: Seq<RegistryApp>,
    who: Seq<char>,
    place: ChatWindowPlace,
) -> bool {
    match place {
        ChatWindowPlace::Child(i) => {
            &&& i < children.len()
            &&& i < CHAT_CHILDREN
            &&& child_is_window(children[i as int], who)
            &&& forall|k: int| 0 <= k < i ==> !child_is_window(#[trigger] children[k], who)
        },
        ChatWindowPlace::Registered(i, j) => {
            &&& forall|k: int|
                0 <= k < children.len() && k < CHAT_CHILDREN ==> !child_is_window(
                    #[trigger] children[k],
                    who,
                )
            &&& i < apps.len()
            &&& j < apps[i as int].children@.len()
            &&& j < CHAT_FRAMES
            &&& frame_is_window(apps[i as int], j as int, who)
            &&& no_window_before(apps, i as int, who)
            &&& forall|b: int|
                0 <= b < j ==> !#[trigger] frame_is_window(apps[i as int], b, who)
        },
        ChatWindowPlace::NotThere => {
            &&& forall|k: int|
                0 <= k < children.len() && k < CHAT_CHILDREN ==> !child_is_window(
                    #[trigger] children[k],
                    who,
                )
            &&& no_window_before(apps, apps.len() as int, who)
        },
    }
}

/// Looks for the window of a chat: first among the first children of the client, then among
/// the first children of the programs of the registry that are named after the chat.
pub fn find_chat_window(children: &Vec<AppChild>, apps: &Vec<RegistryApp>, who: &str) -> (place:
    ChatWindowPlace)
    ensures
        stands_at(children@, apps@, who@, place),
{
    let mut k: usize = 0;
    while k < children.len() && k < CHAT_CHILDREN
        invariant
            k <= children@.len(),
            k <= CHAT_CHILDREN,
            forall|m: int| 0 <= m < k ==> !child_is_window(#[trigger] children@[m], who@),
        decreases children@.len() - k,
    {
        if is_chat_frame(children[k].role.as_str(), children[k].name.as_str(), who) {
            return ChatWindowPlace::Child(k);
        }
        k = k + 1;
    }
    let mut i: usize = 0;
    while i < apps.len()
        invariant
            i <= apps@.len(),
            no_window_before(apps@, i as int, who@),
            forall|m: int|
                0 <= m < children@.len() && m < CHAT_CHILDREN ==> !child_is_window(
                    #[trigger] children@[m],
                    who@,
                ),
        decreases apps@.len() - i,
    {
        let app = &apps[i];
        if text_contains(app.name.as_str(), who) && !is_wechat_main(app.name.as_str()) {
            let mut j: usize = 0;
            while j < app.children.len() && j < CHAT_FRAMES
                invariant
                    i < apps@.len(),
                    *app == apps@[i as int],
                    app_is_chat(*app, who@),
                    j <= app.children@.len(),
                    j <= CHAT_FRAMES,
                    no_window_before(apps@, i as int, who@),
                    forall|b: int|
                        0 <= b < j ==> !#[trigger] frame_is_window(apps@[i as int], b, who@),
                    forall|m: int|
                        0 <= m < children@.len() && m < CHAT_CHILDREN ==> !child_is_window(
                            #[trigger] children@[m],
                            who@,
                        ),
                decreases app.children@.len() - j,
            {
                if text_eq(app.children[j].0.as_str(), "frame") && text_contains(
                    app.children[j].1.as_str(),
                    who,
                ) {
                    return ChatWindowPlace::Registered(i, j);
                }
                j = j + 1;
            }
        }
        i = i + 1;
    }
    ChatWindowPlace::NotThere
}

// ---------------------------------------------------------------------------
// Laws of searches
// ---------------------------------------------------------------------------

/// Of two boxes that end at the same height the larger is better.
pub proof fn larger_boxes_are_better(a: BBox, b: BBox)
    requires
        a.y + a.h == b.y + b.h,
        a.w * a.h > b.w * b.h,
    ensures
        box_score(a) > box_score(b),
{
}

/// Only a control that takes text, whose place is known, and that is at least as wide and
/// as high as a line needs, can be the input box; any such control is, until a better one
/// is found.
pub proof fn input_boxes_take_text(node: usize, role: Seq<char>, bbox: Option<BBox>)
    ensures
        better_box(None, node, role, bbox) is Some <==> (role == "entry"@ || role == "text"@)
            && bbox is Some && bbox->0.w >= 120 && bbox->0.h >= 40,
        better_box(None, node, role, bbox) is Some ==> (better_box(
            None,
            node,
            role,
            bbox,
        )->0).0 == node,
{
}

/// The button for files is looked for in the tool bar of the main window, where the window
/// is wide and high enough to show it, else by the input box; without either it is not
/// found.
pub proof fn the_file_button_stands_in_the_tool_bar(frame: BBox, edit: BBox)
    ensures
        frame.w >= 700 && frame.h >= 500 ==> file_button_at(Some(frame), Some(edit)) == Some(
            (frame.x + 403, frame.y + frame.h - 32),
        ) && file_button_at(Some(frame), None) == file_button_at(Some(frame), Some(edit)),
        frame.w < 700 || frame.h < 500 ==> file_button_at(Some(frame), Some(edit))
            == file_button_at(None, Some(edit)),
        edit.w >= 120 && edit.h >= 40 ==> file_button_at(None, Some(edit)) == Some(
            (edit.x + 82, edit.y + edit.h - 18),
        ),
        edit.w < 120 || edit.h < 40 ==> file_button_at(None, Some(edit)) is None,
        file_button_at(None, None) is None,
{
}

/// Where no session has exactly the name, the first that begins with it is taken; and where
/// none begins with it, the first that contains it.
pub proof fn beginnings_go_before_parts(
    name: Seq<char>,
    items: Seq<(usize, Seq<char>)>,
    k: int,
)
    requires
        name.len() > 0,
        forall|i: int| 0 <= i < items.len() ==> (#[trigger] items[i]).1 != name,
        0 <= k < items.len(),
    ensures
        ({
            let none: Option<usize> = None;
            let start = SessionSearchView { name, begins: none, contains: none };
            let found = found_among(start, items);
            &&& crate::text::has_prefix(items[k].1, name) && (forall|i: int|
                0 <= i < k ==> !crate::text::has_prefix((#[trigger] items[i]).1, name)) ==> found
                == Some(items[k].0)
            &&& (forall|i: int|
                0 <= i < items.len() ==> !crate::text::has_prefix((#[trigger] items[i]).1, name))
                && crate::text::contains_text(items[k].1, name) && (forall|i: int|
                0 <= i < k ==> !crate::text::contains_text((#[trigger] items[i]).1, name)) ==> found
                == Some(items[k].0)
            &&& (forall|i: int|
                0 <= i < items.len() ==> !crate::text::contains_text((#[trigger] items[i]).1, name))
                ==> found is None
        }),
{
    let none: Option<usize> = None;
    let start = SessionSearchView { name, begins: none, contains: none };
    if crate::text::has_prefix(items[k].1, name) && (forall|i: int|
        0 <= i < k ==> !crate::text::has_prefix((#[trigger] items[i]).1, name)) {
        lemma_first_beginning(start, items, k);
    }
    if (forall|i: int|
        0 <= i < items.len() ==> !crate::text::has_prefix((#[trigger] items[i]).1, name))
        && crate::text::contains_text(items[k].1, name) && (forall|i: int|
        0 <= i < k ==> !crate::text::contains_text((#[trigger] items[i]).1, name)) {
        lemma_first_part(start, items, k);
    }
    if forall|i: int|
        0 <= i < items.len() ==> !crate::text::contains_text((#[trigger] items[i]).1, name) {
        assert(items.skip(0) =~= items);
        lemma_found_contains(start, items, items, 0);
        if found_among(start, items) is Some {
            let n = choose|n: int|
                0 <= n < items.len() && found_among(start, items)->0 == (#[trigger] items[n]).0
                    && crate::text::contains_text(items[n].1, name);
            assert(crate::text::contains_text(items[n].1, name));
        }
    }
}

proof fn lemma_begun(search: SessionSearchView, items: Seq<(usize, Seq<char>)>)
    requires
        search.begins is Some,
        forall|i: int| 0 <= i < items.len() ==> (#[trigger] items[i]).1 != search.name,
    ensures
        found_among(search, items) == search.begins,
    decreases items.len(),
{
    if items.len() > 0 {
        let rest = items.skip(1);
        assert(items[0].1 != search.name);
        assert forall|i: int| 0 <= i < rest.len() implies (#[trigger] rest[i]).1 != search.name by {
            assert(rest[i] == items[i + 1]);
        }
        lemma_begun(after_item(search, items[0].0, items[0].1), rest);
    }
}

proof fn lemma_first_beginning(
    search: SessionSearchView,
    items: Seq<(usize, Seq<char>)>,
    k: int,
)
    requires
        search.begins is None,
        search.name.len() > 0,
        0 <= k < items.len(),
        forall|i: int| 0 <= i < items.len() ==> (#[trigger] items[i]).1 != search.name,
        crate::text::has_prefix(items[k].1, search.name),
        forall|i: int| 0 <= i < k ==> !crate::text::has_prefix((#[trigger] items[i]).1, search.name),
    ensures
        found_among(search, items) == Some(items[k].0),
    decreases items.len(),
{
    let rest = items.skip(1);
    assert(items[0].1 != search.name);
    assert forall|i: int| 0 <= i < rest.len() implies (#[trigger] rest[i]).1 != search.name by {
        assert(rest[i] == items[i + 1]);
    }
    let next = after_item(search, items[0].0, items[0].1);
    if k == 0 {
        lemma_begun(next, rest);
    } else {
        assert(!crate::text::has_prefix(items[0].1, search.name));
        assert(rest[k - 1] == items[k]);
        assert forall|i: int| 0 <= i < k - 1 implies !crate::text::has_prefix(
            (#[trigger] rest[i]).1,
            search.name,
        ) by {
            assert(rest[i] == items[i + 1]);
        }
        lemma_first_beginning(next, rest, k - 1);
    }
}

proof fn lemma_contained(search: SessionSearchView, items: Seq<(usize, Seq<char>)>)
    requires
        search.begins is None,
        search.contains is Some,
        forall|i: int|
            0 <= i < items.len() ==> (#[trigger] items[i]).1 != search.name
                && !crate::text::has_prefix(items[i].1, search.name),
    ensures
        found_among(search, items) == search.contains,
    decreases items.len(),
{
    if items.len() > 0 {
        let rest = items.skip(1);
        assert(items[0].1 != search.name && !crate::text::has_prefix(items[0].1, search.name));
        assert forall|i: int| 0 <= i < rest.len() implies (#[trigger] rest[i]).1 != search.name
            && !crate::text::has_prefix(rest[i].1, search.name) by {
            assert(rest[i] == items[i + 1]);
        }
        lemma_contained(after_item(search, items[0].0, items[0].1), rest);
    }
}

proof fn lemma_first_part(search: SessionSearchView, items: Seq<(usize, Seq<char>)>, k: int)
    requires
        search.begins is None,
        search.contains is None,
        search.name.len() > 0,
        0 <= k < items.len(),
        forall|i: int|
            0 <= i < items.len() ==> (#[trigger] items[i]).1 != search.name
                && !crate::text::has_prefix(items[i].1, search.name),
        crate::text::contains_text(items[k].1, search.name),
        forall|i: int|
            0 <= i < k ==> !crate::text::contains_text((#[trigger] items[i]).1, search.name),
    ensures
        found_among(search, items) == Some(items[k].0),
    decreases items.len(),
{
    let rest = items.skip(1);
    assert(items[0].1 != search.name && !crate::text::has_prefix(items[0].1, search.name));
    assert forall|i: int| 0 <= i < rest.len() implies (#[trigger] rest[i]).1 != search.name
        && !crate::text::has_prefix(rest[i].1, search.name) by {
        assert(rest[i] == items[i + 1]);
    }
    let next = after_item(search, items[0].0, items[0].1);
    if k == 0 {
        assert(items[0].1.len() > 0) by {
            let at = choose|at: int| crate::text::occurs_at(items[0].1, search.name, at);
        }
        lemma_contained(next, rest);
    } else {
        assert(!crate::text::contains_text(items[0].1, search.name));
        assert(rest[k - 1] == items[k]);
        assert forall|i: int| 0 <= i < k - 1 implies !crate::text::contains_text(
            (#[trigger] rest[i]).1,
            search.name,
        ) by {
            assert(rest[i] == items[i + 1]);
        }
        lemma_first_part(next, rest, k - 1);
    }
}

/// The sessions that are told are those at the top of the list, fifty at most, each that
/// has a name of more than one byte, without the white space around it, and with whether
/// one of its first ten parts is the mark of unread messages.
pub proof fn sessions_are_listed_one_by_one(items: Seq<SessionItem>, more: Seq<SessionItem>)
    ensures
        listed(items + more) == listed(items) + listed(more),
        items.len() == 1 ==> {
            let name = crate::text::trimmed(items[0].name@);
            &&& vstd::utf8::encode_utf8(name).len() > 1 ==> listed(items).len() == 1 && listed(
                items,
            )[0].0 == name && (listed(items)[0].1 <==> exists|k: int|
                0 <= k < items[0].parts@.len() && k < 10 && crate::wechat::unread_mark(
                    (#[trigger] items[0].parts@[k]).0@,
                    items[0].parts@[k].1@,
                ))
            &&& vstd::utf8::encode_utf8(name).len() <= 1 ==> listed(items).len() == 0
        },
        top_of(items).len() <= 50,
        items.len() <= 50 ==> top_of(items) == items,
        forall|k: int| 0 <= k < top_of(items).len() ==> #[trigger] top_of(items)[k] == items[k],
    decreases more.len(),
{
    reveal_with_fuel(listed, 2);
    if more.len() == 0 {
        assert(items + more =~= items);
        assert(listed(items) + listed(more) =~= listed(items));
    } else {
        sessions_are_listed_one_by_one(items, more.drop_last());
        assert((items + more).drop_last() =~= items + more.drop_last());
        assert((items + more).last() == more.last());
        assert(listed(items + more) =~= listed(items) + listed(more));
    }
    if items.len() == 1 {
        assert(items.drop_last() =~= Seq::<SessionItem>::empty());
        assert(listed(items.drop_last()) =~= Seq::<(Seq<char>, bool)>::empty());
    }
    if items.len() <= 50 {
        assert(top_of(items) =~= items);
    }
}

/// A text is seen on the screen where it stands there as it is, with white space around it
/// or not, and where one of the two contains the other and neither is much longer; nothing
/// is seen in a blank message, nor in one that neither contains the text
/// nor is contained in it, nor in one of quite another length.
pub proof fn sent_texts_are_seen(item: Seq<char>, text: Seq<char>)
    ensures
        crate::text::trimmed(item) == text && text.len() > 0 ==> shows(item, text),
        crate::text::trimmed(item).len() > 0 && text.len() > 0 && (crate::text::contains_text(
            crate::text::trimmed(item),
            text,
        ) || crate::text::contains_text(text, crate::text::trimmed(item)))
            && vstd::utf8::encode_utf8(crate::text::trimmed(item)).len() <= 2
            * vstd::utf8::encode_utf8(text).len() + 10 && vstd::utf8::encode_utf8(text).len() <= 2
            * vstd::utf8::encode_utf8(crate::text::trimmed(item)).len() + 10 ==> shows(item, text),
        crate::text::trimmed(item).len() == 0 ==> !shows(item, text),
        !crate::text::contains_text(crate::text::trimmed(item), text)
            && !crate::text::contains_text(text, crate::text::trimmed(item)) ==> !shows(item, text),
        vstd::utf8::encode_utf8(crate::text::trimmed(item)).len() > 2 * vstd::utf8::encode_utf8(
            text,
        ).len() + 10 ==> !shows(item, text),
        vstd::utf8::encode_utf8(text).len() > 2 * vstd::utf8::encode_utf8(
            crate::text::trimmed(item),
        ).len() + 10 ==> !shows(item, text),
{
    if crate::text::trimmed(item) == text && text.len() > 0 {
        assert(text.subrange(0, text.len() as int) =~= text);
        assert(crate::text::occurs_at(text, text, 0));
    }
}

/// The main window is the first of the client's first ten children that is a frame with one
/// of its exact titles and a known place, as long as every child before it can be read.
pub proof fn the_first_main_window_counts(children: Seq<Option<AppChild>>, i: int, left: nat)
    requires
        0 <= i < children.len(),
        i < left,
        children[i] is Some,
        placed_main_frame(children[i]->0),
        forall|k: int|
            0 <= k < i ==> (#[trigger] children[k]) is Some && !placed_main_frame(children[k]->0),
    ensures
        main_window_among(children, left) == children[i]->0.bbox,
        main_window_among(children, left) is Some,
        children[i]->0.role@ == "frame"@,
        main_window_among(children, i as nat) is None,
    decreases i,
{
    if i > 0 {
        let rest = children.skip(1);
        assert(children[0] is Some && !placed_main_frame(children[0]->0));
        assert forall|k: int| 0 <= k < i - 1 implies (#[trigger] rest[k]) is Some
            && !placed_main_frame(rest[k]->0) by {
            assert(rest[k] == children[k + 1]);
        }
        assert(rest[i - 1] == children[i]);
        the_first_main_window_counts(rest, i - 1, (left - 1) as nat);
    }
}

/// A click for the title bar goes to the middle of the window's width, a little below its
/// upper edge, and never off the screen.
pub proof fn title_bars_are_clicked_in_the_middle(frame: BBox)
    ensures
        bar_place(frame).0 >= 0,
        bar_place(frame).1 >= 0,
        frame.x >= 0 && frame.w >= 0 ==> frame.x <= bar_place(frame).0 <= frame.x + frame.w && 2 * (
        bar_place(frame).0 - frame.x) <= frame.w <= 2 * (bar_place(frame).0 - frame.x) + 1,
        frame.y >= 0 ==> bar_place(frame).1 == frame.y + 15,
{
}

/// The input box is searched for level by level: whatever was offered with children, and
/// nothing else, is the next level; a look counts once; and a search goes no deeper and no
/// further than its bounds.
pub proof fn searches_go_level_by_level(
    search: EditSearchView,
    node: usize,
    role: Seq<char>,
    bbox: Option<BBox>,
    has_children: bool,
)
    ensures
        ({
            let after = looked_at(search, node, role, bbox, has_children);
            let below = one_down(after);
            &&& has_children ==> below.frontier == search.next.push(node)
            &&& !has_children ==> below.frontier == search.next
            &&& below.next.len() == 0
            &&& below.depth == search.depth + 1
            &&& below.visited == search.visited + 1
            &&& below.best == after.best
            &&& after.frontier == search.frontier && after.depth == search.depth
            &&& another_level(search) <==> search.depth < 18 && search.visited < 500
                && search.frontier.len() > 0
            &&& !can_be_edit_box(role, bbox) ==> after.best == search.best
            &&& after.best is Some ==> search.best == after.best || (after.best->0).0 == node
        }),
{
}

/// Of the messages on the screen the last three are looked at, or all where there are
/// fewer.
pub proof fn the_last_messages_are_looked_at(count: int)
    requires
        count > 0,
    ensures
        0 <= checked_from(count) < count,
        count <= 3 ==> checked_from(count) == 0,
        count >= 3 ==> count - checked_from(count) == 3,
{
}

/// The client is the first program on the list whose name holds one of the client's names.
pub proof fn the_first_client_counts(names: Seq<String>, found: Option<usize>, i: int)
    requires
        client_among(names, found),
        0 <= i < names.len(),
        crate::text::contains_text(names[i]@, "微信"@) || crate::text::contains_text(
            crate::outside::unicode_lowercase(names[i]@),
            "wechat"@,
        ) || crate::text::contains_text(
            crate::outside::unicode_lowercase(names[i]@),
            "weixin"@,
        ),
    ensures
        found is Some && found->0 <= i,
        named_like_client(names[found->0 as int]@),
        (forall|k: int| 0 <= k < i ==> !named_like_client((#[trigger] names[k])@)) ==> found
            == Some(i as usize),
{
    assert(named_like_client(names[i]@));
}

/// A chat window is a frame whose title holds the name; the client's own windows go first,
/// the main window is none, and of several the first counts. Where none is found there is
/// none among those that are looked at.
pub proof fn chat_windows_hold_the_name(
    children: Seq<AppChild>,
    apps: Seq<RegistryApp>,
    who: Seq<char>,
    place: ChatWindowPlace,
    k: int,
)
    requires
        stands_at(children, apps, who, place),
    ensures
        place matches ChatWindowPlace::Child(i) ==> {
            &&& i < children.len() && i < 20
            &&& children[i as int].role@ == "frame"@
            &&& crate::text::contains_text(children[i as int].name@, who)
            &&& children[i as int].name@ != "微信"@
        },
        place matches ChatWindowPlace::Registered(i, j) ==> {
            &&& i < apps.len() && j < apps[i as int].children@.len() && j < 5
            &&& crate::text::contains_text(apps[i as int].name@, who)
            &&& apps[i as int].name@ != "微信"@
            &&& apps[i as int].children@[j as int].0@ == "frame"@
            &&& crate::text::contains_text(apps[i as int].children@[j as int].1@, who)
        },
        0 <= k < children.len() && k < 20 && child_is_window(children[k], who) ==> (
        place matches ChatWindowPlace::Child(i) && i <= k),
        place == ChatWindowPlace::NotThere ==> forall|a: int, b: int|
            0 <= a < apps.len() && 0 <= b < apps[a].children@.len() && b < 5
                ==> !#[trigger] frame_is_window(apps[a], b, who),
        place matches ChatWindowPlace::Registered(i, j) ==> forall|a: int, b: int|
            0 <= a <= i && 0 <= b < apps[a].children@.len() && b < 5
                && #[trigger] frame_is_window(apps[a], b, who) ==> a == i && b >= j,
{
}

} // verus!
