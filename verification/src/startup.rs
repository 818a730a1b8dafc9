//! What is decided while the program starts and runs: how long the client, the key and the
//! databases are waited for, where the databases are, and when a lost connection is made
//! anew.

use vstd::prelude::*;
use vstd::string::*;

use crate::attachment::join;
use crate::text::{bytes_eq, text_len, trim};
use crate::wechat::WeChatStatus;

verus! {

// ---------------------------------------------------------------------------
// The client
// ---------------------------------------------------------------------------

/// How often a client that does not run is looked for.
pub const START_LOOKS: u64 = 30;

/// The wait for the client: how often it was looked for, and whether the user was asked to
/// log in.
#[derive(Clone, Copy, Debug, PartialEq, Eq, Structural)]
pub struct LoginWait {
    pub attempts: u64,
    pub prompted: bool,
}

/// What is done after a look at the client.
#[derive(Clone, Copy, Debug, PartialEq, Eq, Structural)]
pub enum LoginStep {
    /// Goes on with the start.
    Proceed,
    /// Waits and looks again.
    Wait {
        /// Whether the user is asked to log in.
        prompt: bool,
        /// Whether the connection is made anew.
        reconnect: bool,
        seconds: u64,
    },
}

/// What is done after a look at the client. One that does not run is given up some day; one
/// that is not logged in is waited for, and the user is asked once.
pub open spec fn login_next(wait: LoginWait, status: WeChatStatus) -> (LoginWait, LoginStep) {
    let later = (wait.attempts + 1) as u64;
    match status {
        WeChatStatus::LoggedIn => (wait, LoginStep::Proceed),
        WeChatStatus::NotRunning => if wait.attempts < START_LOOKS {
            (
                LoginWait { attempts: later, ..wait },
                LoginStep::Wait {
                    prompt: false,
                    reconnect: wait.attempts % 5 == 4,
                    seconds: 2,
                },
            )
        } else {
            (wait, LoginStep::Proceed)
        },
        WeChatStatus::WaitingForLogin => (
            LoginWait { attempts: later, prompted: true },
            LoginStep::Wait { prompt: !wait.prompted, reconnect: later % 5 == 4, seconds: 3 },
        ),
    }
}

impl LoginWait {
    /// Nothing was looked at yet.
    pub fn new() -> (wait: LoginWait)
        ensures
            wait == (LoginWait { attempts: 0, prompted: false }),
    {
        LoginWait { attempts: 0, prompted: false }
    }

    /// What is done after a look at the client.
    pub fn step(&mut self, status: WeChatStatus) -> (step: LoginStep)
        requires
            old(self).attempts < u64::MAX,
        ensures
            (*final(self), step) == login_next(*old(self), status),
    {
        match status {
            WeChatStatus::LoggedIn => LoginStep::Proceed,
            WeChatStatus::NotRunning => {
                if self.attempts >= START_LOOKS {
                    return LoginStep::Proceed;
                }
                let reconnect: bool = self.attempts % 5 == 4;
                self.attempts = self.attempts + 1;
                LoginStep::Wait { prompt: false, reconnect, seconds: 2 }
            },
            WeChatStatus::WaitingForLogin => {
                let prompt: bool = !self.prompted;
                self.prompted = true;
                self.attempts = self.attempts + 1;
                LoginStep::Wait { prompt, reconnect: self.attempts % 5 == 4, seconds: 3 }
            },
        }
    }
}

/// The user is asked to log in once at most: after a look at which somebody was asked
/// nobody is asked again, whatever is seen later.
pub proof fn login_is_asked_for_once(wait: LoginWait, first: WeChatStatus, second: WeChatStatus)
    requires
        wait.attempts + 1 < u64::MAX,
    ensures
        ({
            let (a, step) = login_next(wait, first);
            let (b, again) = login_next(a, second);
            &&& wait.prompted ==> a.prompted
            &&& (step matches LoginStep::Wait { prompt, .. } && prompt) ==> a.prompted && !(
            again matches LoginStep::Wait { prompt: other, .. } && other)
        }),
{
}

/// What the wait has come to after the client was not running at `looks` looks in a row.
pub open spec fn not_running_for(wait: LoginWait, looks: nat) -> LoginWait
    decreases looks,
{
    if looks == 0 {
        wait
    } else {
        login_next(
            not_running_for(wait, (looks - 1) as nat),
            WeChatStatus::NotRunning,
        ).0
    }
}

/// A client that never runs is waited for thirty times, and then no longer.
pub proof fn missing_clients_are_given_up(looks: nat)
    ensures
        ({
            let begin = LoginWait { attempts: 0, prompted: false };
            let wait = not_running_for(begin, looks);
            &&& wait.attempts == if looks < START_LOOKS {
                looks
            } else {
                START_LOOKS as nat
            }
            &&& login_next(wait, WeChatStatus::NotRunning).1 == LoginStep::Proceed <==> looks
                >= START_LOOKS
        }),
    decreases looks,
{
    if looks > 0 {
        missing_clients_are_given_up((looks - 1) as nat);
    }
}

// ---------------------------------------------------------------------------
// The key
// ---------------------------------------------------------------------------

/// How often the key is looked for, with two seconds between two looks.
pub const KEY_LOOKS: u64 = 60;

/// How often a new key is looked for, with two seconds between two looks.
pub const NEW_KEY_LOOKS: u64 = 30;

/// The files that the key is looked for in, in order.
pub open spec fn key_file(n: int) -> Seq<char> {
    if n == 0 {
        "/home/wechat/.xwechat/wechat_key.txt"@
    } else {
        "/tmp/wechat_key.txt"@
    }
}

/// The file that the key is read from: the first that exists, or the first of all.
pub fn key_path(first_exists: bool, second_exists: bool) -> (path: &'static str)
    ensures
        path@ == key_file(
            if !first_exists && second_exists {
                1
            } else {
                0
            },
        ),
{
    if !first_exists && second_exists {
        "/tmp/wechat_key.txt"
    } else {
        "/home/wechat/.xwechat/wechat_key.txt"
    }
}

/// The key in a key file: its text without white space around it, which has the length of a
/// key, with or without the salt behind it.
pub open spec fn key_of_file(text: Seq<char>) -> Option<Seq<char>> {
    let key = crate::text::trimmed(text);
    if crate::text::byte_len(key) == 96 || crate::text::byte_len(key) == 64 {
        Some(key)
    } else {
        None
    }
}

/// The key in a key file.
pub fn usable_key(text: &str) -> (key: Option<String>)
    ensures
        match key {
            Some(found) => key_of_file(text@) == Some(found@),
            None => key_of_file(text@) is None,
        },
{
    let key = trim(text);
    let len: usize = text_len(key);
    if len == 96 || len == 64 {
        Some(key.to_owned())
    } else {
        None
    }
}

/// A new key that is tried where the known one does not open the databases: any text.
pub fn renewed_key(text: &str) -> (key: Option<String>)
    ensures
        match key {
            Some(found) => found@ == crate::text::trimmed(text@) && found@.len() > 0,
            None => crate::text::trimmed(text@).len() == 0,
        },
{
    let key = trim(text);
    if key.is_empty() {
        None
    } else {
        Some(key.to_owned())
    }
}

/// How long is waited before the `n`-th try to mark the messages that are there as read, in
/// seconds.
pub open spec fn pause_before_marking(n: u64) -> Option<u64> {
    if n >= 10 {
        None
    } else if n == 0 {
        Some(5u64)
    } else {
        Some(3u64)
    }
}

/// How long is waited before the messages that are there are marked as read for the `n`-th
/// time, in seconds: the client creates its databases only after the login. After ten times
/// it is no longer tried.
pub fn mark_read_pause(n: u64) -> (seconds: Option<u64>)
    ensures
        seconds == pause_before_marking(n),
{
    if n >= 10 {
        None
    } else if n == 0 {
        Some(5)
    } else {
        Some(3)
    }
}

/// The token that requests have to bring: an empty one is none.
pub fn effective_token(token: Option<String>) -> (effective: Option<String>)
    ensures
        match (token, effective) {
            (Some(given), Some(kept)) => kept@ == given@ && given@.len() > 0,
            (Some(given), None) => given@.len() == 0,
            (None, kept) => kept is None,
        },
{
    match token {
        Some(given) => if given.as_str().is_empty() {
            None
        } else {
            Some(given)
        },
        None => None,
    }
}

// ---------------------------------------------------------------------------
// The databases
// ---------------------------------------------------------------------------

/// Below a home directory, the files of the accounts.
pub open spec fn files_of(home: Seq<u8>) -> Seq<u8> {
    crate::attachment::joined(home, vstd::utf8::encode_utf8("Documents/xwechat_files"@))
}

/// The home directory, or the one of the superuser where none is known.
pub fn dirs_or_home(home: Option<&str>) -> (path: Vec<u8>)
    ensures
        path@ == match home {
            Some(known) => known.spec_bytes(),
            None => vstd::utf8::encode_utf8("/root"@),
        },
{
    let text: &str = match home {
        Some(known) => known,
        None => "/root",
    };
    let mut path: Vec<u8> = Vec::new();
    path.extend_from_slice(text.as_bytes());
    proof {
        assert(path@ =~= text.spec_bytes());
    }
    path
}

/// The first occurrence of each path, in order.
pub open spec fn each_once(paths: Seq<Seq<u8>>) -> Seq<Seq<u8>>
    decreases paths.len(),
{
    if paths.len() == 0 {
        seq![]
    } else {
        let before = each_once(paths.drop_last());
        if before.contains(paths.last()) {
            before
        } else {
            before.push(paths.last())
        }
    }
}

fn contains_path(paths: &Vec<Vec<u8>>, path: &Vec<u8>) -> (found: bool)
    ensures
        found == crate::attachment::paths_view(paths@).contains(path@),
{
    let ghost all = crate::attachment::paths_view(paths@);
    let mut i: usize = 0;
    while i < paths.len()
        invariant
            i <= paths@.len(),
            all == crate::attachment::paths_view(paths@),
            forall|k: int| 0 <= k < i ==> #[trigger] all[k] != path@,
        decreases paths@.len() - i,
    {
        proof {
            assert(all[i as int] == paths@[i as int]@);
        }
        if bytes_eq(paths[i].as_slice(), path.as_slice()) {
            return true;
        }
        i = i + 1;
    }
    false
}

/// Where the files of accounts can be: below the home directory that the client has by
/// default, below the given one, and below all others.
pub open spec fn account_places(home: Seq<u8>, homes: Seq<Seq<u8>>) -> Seq<Seq<u8>> {
    each_once(
        seq![
            vstd::utf8::encode_utf8("/home/wechat/Documents/xwechat_files"@),
            files_of(home),
        ] + homes.map_values(|h: Seq<u8>| files_of(h)),
    )
}

/// Where the files of accounts are searched for.
pub fn search_dirs(home: &Vec<u8>, homes: &Vec<Vec<u8>>) -> (dirs: Vec<Vec<u8>>)
    ensures
        crate::attachment::paths_view(dirs@) == account_places(
            home@,
            crate::attachment::paths_view(homes@),
        ),
{
    let ghost others = crate::attachment::paths_view(homes@);
    let ghost rest = others.map_values(|h: Seq<u8>| files_of(h));
    let ghost standard = vstd::utf8::encode_utf8("/home/wechat/Documents/xwechat_files"@);
    let ghost all = seq![standard, files_of(home@)] + rest;
    let mut dirs: Vec<Vec<u8>> = Vec::new();
    let mut first: Vec<u8> = Vec::new();
    first.extend_from_slice("/home/wechat/Documents/xwechat_files".as_bytes());
    proof {
        assert(first@ =~= standard);
        reveal_with_fuel(each_once, 3);
        assert(all.take(0) =~= Seq::<Seq<u8>>::empty());
        assert(all.take(1).drop_last() =~= all.take(0));
        assert(all.take(1).last() == standard);
        assert(all.take(2).drop_last() =~= all.take(1));
        assert(all.take(2).last() == files_of(home@));
    }
    dirs.push(first);
    proof {
        assert(crate::attachment::paths_view(dirs@) =~= each_once(all.take(1)));
    }
    let second = join(home.as_slice(), "Documents/xwechat_files");
    if !contains_path(&dirs, &second) {
        dirs.push(second);
    }
    proof {
        assert(crate::attachment::paths_view(dirs@) =~= each_once(all.take(2)));
    }
    let mut i: usize = 0;
    while i < homes.len()
        invariant
            i <= homes@.len(),
            others == crate::attachment::paths_view(homes@),
            rest == others.map_values(|h: Seq<u8>| files_of(h)),
            all == seq![standard, files_of(home@)] + rest,
            crate::attachment::paths_view(dirs@) =~= each_once(all.take(i + 2)),
        decreases homes@.len() - i,
    {
        let ghost before = crate::attachment::paths_view(dirs@);
        let dir = join(homes[i].as_slice(), "Documents/xwechat_files");
        proof {
            assert(all.take(i + 3).drop_last() =~= all.take(i + 2));
            assert(all.take(i + 3).last() == dir@);
        }
        if !contains_path(&dirs, &dir) {
            dirs.push(dir);
            proof {
                assert(crate::attachment::paths_view(dirs@) =~= before.push(dir@));
            }
        }
        i = i + 1;
    }
    proof {
        assert(all.take(all.len() as int) =~= all);
    }
    dirs
}

/// The databases of an account: where they are, and when the messages last changed, in
/// nanoseconds before or after the beginning of 1970.
#[derive(Debug)]
pub struct AccountDir {
    pub path: Vec<u8>,
    pub changed_ns: i128,
}

/// Whether the account at `i` is the active one: no other changed later, and none before it
/// on the list at the same time.
pub open spec fn active(accounts: Seq<AccountDir>, i: int) -> bool {
    &&& 0 <= i < accounts.len()
    &&& forall|k: int|
        0 <= k < accounts.len() ==> (#[trigger] accounts[k]).changed_ns <= accounts[i].changed_ns
    &&& forall|k: int| 0 <= k < i ==> (#[trigger] accounts[k]).changed_ns < accounts[i].changed_ns
}

/// Where the databases are: those of the active account, or, where there is no account, at
/// the place that older clients had, if that exists.
pub fn find_db_dir(accounts: &Vec<AccountDir>, old_place_exists: bool) -> (dir: Option<Vec<u8>>)
    ensures
        accounts@.len() > 0 ==> dir is Some && exists|i: int|
            #[trigger] active(accounts@, i) && dir->0@ == accounts@[i].path@,
        accounts@.len() == 0 ==> match dir {
            Some(path) => old_place_exists && path@ == vstd::utf8::encode_utf8(
                "/home/wechat/.local/share/weixin/data/db_storage"@,
            ),
            None => !old_place_exists,
        },
{
    if accounts.len() == 0 {
        if !old_place_exists {
            return None;
        }
        let mut path: Vec<u8> = Vec::new();
        path.extend_from_slice("/home/wechat/.local/share/weixin/data/db_storage".as_bytes());
        proof {
            assert(path@ =~= vstd::utf8::encode_utf8(
                "/home/wechat/.local/share/weixin/data/db_storage"@,
            ));
        }
        return Some(path);
    }
    let mut best: usize = 0;
    let mut i: usize = 1;
    while i < accounts.len()
        invariant
            best < i <= accounts@.len(),
            forall|k: int|
                0 <= k < i ==> (#[trigger] accounts@[k]).changed_ns
                    <= accounts@[best as int].changed_ns,
            forall|k: int|
                0 <= k < best ==> (#[trigger] accounts@[k]).changed_ns
                    < accounts@[best as int].changed_ns,
        decreases accounts@.len() - i,
    {
        if accounts[i].changed_ns > accounts[best].changed_ns {
            best = i;
        }
        i = i + 1;
    }
    let mut path: Vec<u8> = Vec::new();
    path.extend_from_slice(accounts[best].path.as_slice());
    proof {
        assert(path@ =~= accounts@[best as int].path@);
        assert(active(accounts@, best as int));
    }
    Some(path)
}

/// There is at most one active account.
pub proof fn one_account_is_active(accounts: Seq<AccountDir>, i: int, j: int)
    requires
        active(accounts, i),
        active(accounts, j),
    ensures
        i == j,
{
    if i < j {
        assert(accounts[i].changed_ns < accounts[j].changed_ns);
    }
    if j < i {
        assert(accounts[j].changed_ns < accounts[i].changed_ns);
    }
}

// ---------------------------------------------------------------------------
// While the program runs
// ---------------------------------------------------------------------------

/// After how many failures in a row the connection to the desktop is made anew.
pub const HEARTBEAT_FAILURES: u32 = 3;

/// How often in a row the desktop showed no program.
#[derive(Clone, Copy, Debug, PartialEq, Eq, Structural)]
pub struct Heartbeat {
    pub failures: u32,
}

/// What the heartbeat has come to after the desktop showed so many programs, and whether the
/// connection is made anew.
pub open spec fn beaten(before: Heartbeat, programs: i32, after: Heartbeat, reconnect: bool) -> bool {
    &&& after.failures == if programs > 0 {
        0
    } else {
        before.failures + 1
    }
    &&& reconnect == (programs <= 0 && before.failures + 1 >= HEARTBEAT_FAILURES)
}

impl Heartbeat {
    /// No failure yet.
    pub fn new() -> (heartbeat: Heartbeat)
        ensures
            heartbeat.failures == 0,
    {
        Heartbeat { failures: 0 }
    }

    /// Takes in how many programs the desktop shows. Returns whether the connection is to be
    /// made anew.
    pub fn beat(&mut self, programs: i32) -> (reconnect: bool)
        requires
            old(self).failures < u32::MAX,
        ensures
            beaten(*old(self), programs, *final(self), reconnect),
    {
        if programs > 0 {
            self.failures = 0;
            false
        } else {
            self.failures = self.failures + 1;
            self.failures >= HEARTBEAT_FAILURES
        }
    }

    /// Takes in whether the connection could be made anew.
    pub fn reconnected(&mut self, done: bool)
        ensures
            final(self).failures == if done {
                0
            } else {
                old(self).failures
            },
    {
        if done {
            self.failures = 0;
        }
    }
}

/// What comes from the watch on the databases.
#[derive(Clone, Copy, Debug, PartialEq, Eq, Structural)]
pub enum WatchEvent {
    Changed,
    /// Changes came faster than they were taken in.
    Lagged,
    /// Nothing came for a while.
    TimedOut,
    /// The watch is over.
    Closed,
}

/// Whether the databases are read after an event: always, as long as the watch goes on.
pub fn reads_after(event: WatchEvent) -> (reads: bool)
    ensures
        reads == (event != WatchEvent::Closed),
{
    match event {
        WatchEvent::Closed => false,
        _ => true,
    }
}

// ---------------------------------------------------------------------------
// Laws of the start
// ---------------------------------------------------------------------------

/// The start goes on exactly where the client is logged in, or was looked for in vain too
/// often; whatever happens, a wait is counted, and only a client that waits for a login
/// makes the user be asked.
pub proof fn only_logins_go_on(wait: LoginWait, status: WeChatStatus)
    requires
        wait.attempts < u64::MAX,
    ensures
        ({
            let (after, step) = login_next(wait, status);
            &&& step == LoginStep::Proceed <==> status == WeChatStatus::LoggedIn || (status
                == WeChatStatus::NotRunning && wait.attempts >= 30)
            &&& step == LoginStep::Proceed ==> after == wait
            &&& step is Wait ==> after.attempts == wait.attempts + 1
            &&& step matches LoginStep::Wait { prompt, reconnect, seconds } ==> {
                &&& prompt <==> status == WeChatStatus::WaitingForLogin && !wait.prompted
                &&& 2 <= seconds <= 3
                &&& reconnect && status == WeChatStatus::NotRunning ==> after.attempts % 5 == 0
                &&& reconnect && status == WeChatStatus::WaitingForLogin ==> after.attempts % 5
                    == 4
            }
            &&& after.prompted <==> wait.prompted || status == WeChatStatus::WaitingForLogin
        }),
{
}

/// Of any five waits in a row for a client in one state, exactly one makes the connection
/// anew.
pub proof fn connections_are_made_anew_at_every_fifth_wait(wait: LoginWait, running: bool)
    requires
        wait.attempts + 5 <= 30,
    ensures
        ({
            let status = unready(running);
            exists|k: nat| k < 5 && #[trigger] reconnects(waited(wait, status, k), status)
        }),
        ({
            let status = unready(running);
            forall|j: nat, k: nat|
                j < 5 && k < 5 && #[trigger] reconnects(waited(wait, status, j), status)
                    && #[trigger] reconnects(waited(wait, status, k), status) ==> j == k
        }),
{
    let status = unready(running);
    assert forall|k: nat| k < 5 implies (#[trigger] waited(wait, status, k)).attempts
        == wait.attempts + k by {
        lemma_waited(wait, status, k);
    }
    let k: nat = if running {
        ((8 - wait.attempts % 5) % 5) as nat
    } else {
        (4 - wait.attempts % 5) as nat
    };
    assert(waited(wait, status, k).attempts == wait.attempts + k);
    assert(reconnects(waited(wait, status, k), status));
}

/// The state of a client that is not logged in.
pub open spec fn unready(running: bool) -> WeChatStatus {
    if running {
        WeChatStatus::WaitingForLogin
    } else {
        WeChatStatus::NotRunning
    }
}

/// What the wait has come to after `looks` looks at a client in one state.
pub open spec fn waited(wait: LoginWait, status: WeChatStatus, looks: nat) -> LoginWait
    decreases looks,
{
    if looks == 0 {
        wait
    } else {
        login_next(waited(wait, status, (looks - 1) as nat), status).0
    }
}

/// Whether the connection is made anew after a look.
pub open spec fn reconnects(wait: LoginWait, status: WeChatStatus) -> bool {
    login_next(wait, status).1 matches LoginStep::Wait { reconnect, .. } && reconnect
}

proof fn lemma_waited(wait: LoginWait, status: WeChatStatus, looks: nat)
    requires
        status != WeChatStatus::LoggedIn,
        wait.attempts + looks <= 30,
    ensures
        waited(wait, status, looks).attempts == wait.attempts + looks,
    decreases looks,
{
    if looks > 0 {
        lemma_waited(wait, status, (looks - 1) as nat);
    }
}

/// A key file holds a key exactly where, without the white space around it, it has the
/// length of one; what is taken is what stands there.
pub proof fn keys_have_their_length(text: Seq<char>)
    ensures
        key_of_file(text) is Some <==> crate::text::byte_len(crate::text::trimmed(text)) == 64
            || crate::text::byte_len(crate::text::trimmed(text)) == 96,
        key_of_file(text) is Some ==> key_of_file(text)->0 == crate::text::trimmed(text),
{
}

/// The key is looked for at two different places.
pub proof fn two_places_hold_the_key()
    ensures
        key_file(0) == "/home/wechat/.xwechat/wechat_key.txt"@,
        key_file(1) == "/tmp/wechat_key.txt"@,
        key_file(0) != key_file(1),
{
    reveal_strlit("/home/wechat/.xwechat/wechat_key.txt");
    reveal_strlit("/tmp/wechat_key.txt");
    assert(key_file(0)[1] == 'h');
    assert(key_file(1)[1] == 't');
}

proof fn lemma_each_once(paths: Seq<Seq<u8>>)
    ensures
        each_once(paths).no_duplicates(),
        forall|p: Seq<u8>| each_once(paths).contains(p) <==> paths.contains(p),
    decreases paths.len(),
{
    if paths.len() > 0 {
        let rest = paths.drop_last();
        lemma_each_once(rest);
        let before = each_once(rest);
        assert forall|p: Seq<u8>| each_once(paths).contains(p) <==> paths.contains(p) by {
            if paths.contains(p) {
                let i = paths.index_of(p);
                if i < rest.len() {
                    assert(rest[i] == p);
                    assert(rest.contains(p));
                    assert(before.contains(p));
                    let j = before.index_of(p);
                    assert(each_once(paths)[j] == p);
                } else {
                    assert(p == paths.last());
                    if !before.contains(p) {
                        assert(each_once(paths)[before.len() as int] == p);
                    }
                }
            }
            if each_once(paths).contains(p) {
                let i = each_once(paths).index_of(p);
                if i < before.len() {
                    assert(before[i] == p);
                    assert(rest.contains(p));
                    let j = rest.index_of(p);
                    assert(paths[j] == p);
                } else {
                    assert(paths[paths.len() - 1] == p);
                }
            }
        }
    }
}

/// The files of accounts are searched for below the standard home directory first, and
/// below every home directory that is known, and nowhere else; no place is searched twice.
pub proof fn every_home_is_searched_once(home: Seq<u8>, homes: Seq<Seq<u8>>)
    ensures
        ({
            let places = account_places(home, homes);
            &&& places.no_duplicates()
            &&& places.len() > 0 && places[0] == vstd::utf8::encode_utf8(
                "/home/wechat/Documents/xwechat_files"@,
            )
            &&& places.contains(files_of(home))
            &&& forall|k: int|
                0 <= k < homes.len() ==> places.contains(files_of(#[trigger] homes[k]))
            &&& forall|p: Seq<u8>| #[trigger]
                places.contains(p) ==> p == places[0] || p == files_of(home) || exists|k: int|
                    0 <= k < homes.len() && p == files_of(#[trigger] homes[k])
        }),
{
    let standard = vstd::utf8::encode_utf8("/home/wechat/Documents/xwechat_files"@);
    let rest = homes.map_values(|h: Seq<u8>| files_of(h));
    let all = seq![standard, files_of(home)] + rest;
    lemma_each_once(all);
    lemma_first_once(all);
    let places = account_places(home, homes);
    assert(all[0] == standard);
    assert(all[1] == files_of(home));
    assert(all.contains(files_of(home)));
    assert forall|k: int| 0 <= k < homes.len() implies places.contains(
        files_of(#[trigger] homes[k]),
    ) by {
        assert(all[k + 2] == files_of(homes[k]));
        assert(all.contains(files_of(homes[k])));
    }
    assert forall|p: Seq<u8>| #[trigger] places.contains(p) implies p == places[0] || p
        == files_of(home) || exists|k: int|
        0 <= k < homes.len() && p == files_of(#[trigger] homes[k]) by {
        assert(all.contains(p));
        let i = all.index_of(p);
        if i >= 2 {
            assert(p == files_of(homes[i - 2]));
        }
    }
}

proof fn lemma_first_once(paths: Seq<Seq<u8>>)
    requires
        paths.len() > 0,
    ensures
        each_once(paths).len() > 0,
        each_once(paths)[0] == paths[0],
    decreases paths.len(),
{
    reveal_with_fuel(each_once, 2);
    if paths.len() > 1 {
        lemma_first_once(paths.drop_last());
    } else {
        assert(each_once(paths.drop_last()) =~= Seq::<Seq<u8>>::empty());
    }
}

/// The files of accounts lie below their home directory.
pub proof fn account_files_lie_below_the_home(home: Seq<u8>)
    requires
        home.len() > 0,
        home.last() != '/' as u8,
    ensures
        files_of(home) == home + seq!['/' as u8] + vstd::utf8::encode_utf8(
            "Documents/xwechat_files"@,
        ),
{
}

/// The connection is made anew at the third failure in a row, at every further one, and
/// never while programs are shown.
pub proof fn three_failures_make_the_connection_anew(
    beats: Seq<Heartbeat>,
    programs: Seq<i32>,
    reconnects: Seq<bool>,
    i: int,
)
    requires
        beats.len() == programs.len() + 1,
        reconnects.len() == programs.len(),
        forall|k: int|
            0 <= k < programs.len() ==> beaten(
                beats[k],
                #[trigger] programs[k],
                beats[k + 1],
                reconnects[k],
            ),
        beats[0].failures == 0,
        0 <= i < programs.len(),
    ensures
        programs[i] > 0 ==> !reconnects[i],
        i < 2 ==> !reconnects[i],
        i >= 2 ==> (reconnects[i] <==> programs[i - 2] <= 0 && programs[i - 1] <= 0 && programs[i]
            <= 0),
{
    assert(beaten(beats[i], programs[i], beats[i + 1], reconnects[i]));
    if i >= 1 {
        assert(beaten(beats[i - 1], programs[i - 1], beats[i], reconnects[i - 1]));
    }
    if i >= 2 {
        assert(beaten(beats[i - 2], programs[i - 2], beats[i - 1], reconnects[i - 2]));
    }
}

/// Marking is tried ten times, and the first try waits the longest.
pub proof fn marking_is_tried_ten_times(n: u64)
    ensures
        pause_before_marking(n) is Some <==> n < 10,
        n < 10 ==> 3 <= pause_before_marking(n)->0 <= pause_before_marking(0)->0,
        0 < n < 10 ==> pause_before_marking(n) == pause_before_marking(1)
            && pause_before_marking(n)->0 < pause_before_marking(0)->0,
{
}

} // verus!
