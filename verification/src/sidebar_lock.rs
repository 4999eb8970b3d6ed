//! The lock that keeps another plugin from docking panes while the layout of a tab is in pieces.
//!
//! An opening parks the panes of a tab on a tab of its own and moves them back. The herdr-sidebar
//! plugin docks a file explorer into any tab that an event says has none, and an opening raises
//! such events for a tab whose explorer is merely parked. It already serialises its own runs
//! through a lock directory, and a run that cannot take the lock skips itself. Holding that lock
//! for the length of an opening keeps the two apart.
//!
//! Nothing here fails. The lock belongs to another plugin, and an opening that cannot take it goes
//! ahead without.
//!
//! What is done to the file system and when is decided here, one [`Move`] at a time; whoever
//! carries a move out tells the [`Reply`]. Times are in nanoseconds.

use vstd::prelude::*;

use crate::path::{self, join};

verus! {

/// The name of the lock directory in the directory for temporary files.
pub const LOCK_NAME: &'static str = "herdr-sidebar-ensure.lock";

/// The age from which on herdr-sidebar takes a lock for one that a crashed run has left.
pub const STALE_AFTER: u128 = 30_000_000_000;

/// How long to wait for a dock that is under way.
pub const WAIT: u128 = 1_200_000_000;

/// How long to sleep between two attempts.
pub const POLL: u128 = 100_000_000;

/// The lock while it is held: its directory, or none where it was not taken.
#[derive(Clone, Debug, PartialEq, Eq)]
pub struct Guard {
    pub dir: Option<String>,
}

/// Where the lock is, in the directory for temporary files.
pub fn lock_dir(temp_dir: &str) -> (dir: String)
    ensures
        dir@ == path::joined(temp_dir@, LOCK_NAME@),
{
    join(temp_dir, LOCK_NAME)
}

/// Whether a lock of this age was left by a crashed run. A lock whose age cannot be told was not.
pub open spec fn stale(age: Option<u128>, stale_after: u128) -> bool {
    age is Some && age->0 > stale_after
}

/// Tell whether a lock of this age was left by a crashed run.
pub fn is_stale(age: Option<u128>, stale_after: u128) -> (answer: bool)
    ensures
        answer == stale(age, stale_after),
{
    match age {
        Some(age) => age > stale_after,
        None => false,
    }
}

/// What to do next about the lock directory.
#[derive(Clone, Copy, Debug, PartialEq, Eq, Structural)]
pub enum Move {
    /// Create the directory.
    Create,
    /// Tell how old the directory is.
    TellAge,
    /// Remove the directory with all that is in it.
    Break,
    /// Create the directory that was just removed.
    CreateAgain,
    /// Tell the time.
    TellTime,
    /// Sleep for [`POLL`].
    Sleep,
    /// Stop, with the lock taken.
    Taken,
    /// Stop, with the lock left to whoever holds it.
    GivenUp,
}

/// What came of a move.
#[derive(Clone, Copy, Debug, PartialEq, Eq, Structural)]
pub enum Reply {
    /// Whether the directory was created.
    Created(bool),
    /// The age of the directory, if it can be told.
    Age(Option<u128>),
    /// What was asked for has been tried.
    Tried,
    /// The time.
    Time(u128),
}

/// An attempt to take the lock.
#[derive(Clone, Copy, Debug, PartialEq, Eq, Structural)]
pub struct Attempt {
    /// When to give up.
    pub deadline: u128,
    /// The age from which on a lock is broken.
    pub stale_after: u128,
    /// The move that is being carried out.
    pub current: Move,
}

/// The move that comes after another.
pub open spec fn following(attempt: Attempt, reply: Reply) -> Move {
    match (attempt.current, reply) {
        (Move::Create, Reply::Created(created)) => if created {
            Move::Taken
        } else {
            Move::TellAge
        },
        (Move::TellAge, Reply::Age(age)) => if stale(age, attempt.stale_after) {
            Move::Break
        } else {
            Move::TellTime
        },
        (Move::Break, Reply::Tried) => Move::CreateAgain,
        (Move::CreateAgain, Reply::Created(created)) => if created {
            Move::Taken
        } else {
            Move::TellTime
        },
        (Move::TellTime, Reply::Time(now)) => if now >= attempt.deadline {
            Move::GivenUp
        } else {
            Move::Sleep
        },
        (Move::Sleep, Reply::Tried) => Move::Create,
        (current, _) => current,
    }
}

/// An attempt that starts now and is given up when `wait` is over.
pub open spec fn started(now: u128, wait: u128, stale_after: u128) -> Attempt {
    Attempt { deadline: (now + wait) as u128, stale_after, current: Move::Create }
}

/// The attempt to take the lock of the layout, where whoever called does not already hold it.
pub open spec fn holding(already_held: bool, now: u128) -> Option<Attempt> {
    if already_held {
        None
    } else {
        Some(started(now, WAIT, STALE_AFTER))
    }
}

/// Start to take the lock: at once and then again until it is had or `wait` is over.
pub fn hold_in(now: u128, wait: u128, stale_after: u128) -> (attempt: Attempt)
    requires
        now + wait <= u128::MAX,
    ensures
        attempt == started(now, wait, stale_after),
{
    Attempt { deadline: now + wait, stale_after, current: Move::Create }
}

/// Start to take the lock of the layout, unless whoever called already holds it.
pub fn hold(already_held: bool, now: u128) -> (attempt: Option<Attempt>)
    requires
        now + WAIT <= u128::MAX,
    ensures
        attempt == holding(already_held, now),
{
    if already_held {
        None
    } else {
        Some(hold_in(now, WAIT, STALE_AFTER))
    }
}

impl Attempt {
    /// Go on with what came of the current move. A reply that does not belong to it changes
    /// nothing.
    pub fn advance(&mut self, reply: Reply)
        ensures
            *final(self) == (Attempt { current: following(*old(self), reply), ..*old(self) }),
    {
        self.current = match (self.current, reply) {
            (Move::Create, Reply::Created(created)) => if created {
                Move::Taken
            } else {
                Move::TellAge
            },
            (Move::TellAge, Reply::Age(age)) => if is_stale(age, self.stale_after) {
                Move::Break
            } else {
                Move::TellTime
            },
            (Move::Break, Reply::Tried) => Move::CreateAgain,
            (Move::CreateAgain, Reply::Created(created)) => if created {
                Move::Taken
            } else {
                Move::TellTime
            },
            (Move::TellTime, Reply::Time(now)) => if now >= self.deadline {
                Move::GivenUp
            } else {
                Move::Sleep
            },
            (Move::Sleep, Reply::Tried) => Move::Create,
            (current, _) => current,
        };
    }

    /// Whether the attempt is over.
    pub fn is_over(&self) -> (answer: bool)
        ensures
            answer == (self.current == Move::Taken || self.current == Move::GivenUp),
    {
        self.current == Move::Taken || self.current == Move::GivenUp
    }

    /// What is held after the attempt on the lock at `dir`.
    pub fn guard(&self, dir: String) -> (guard: Guard)
        ensures
            guard.dir == if self.current == Move::Taken {
                Some(dir)
            } else {
                None
            },
    {
        if self.current == Move::Taken {
            Guard { dir: Some(dir) }
        } else {
            Guard { dir: None }
        }
    }
}

/// An attempt after a run of replies.
pub open spec fn after(attempt: Attempt, replies: Seq<Reply>) -> Attempt
    decreases replies.len(),
{
    if replies.len() == 0 {
        attempt
    } else {
        let before = after(attempt, replies.drop_last());
        Attempt { current: following(before, replies.last()), ..before }
    }
}

/// The lock counts as taken only where this attempt created its directory, and so a lock of
/// someone else is never released.
pub proof fn only_a_created_lock_is_taken(attempt: Attempt, replies: Seq<Reply>)
    requires
        attempt.current == Move::Create,
        after(attempt, replies).current == Move::Taken,
    ensures
        replies.contains(Reply::Created(true)),
    decreases replies.len(),
{
    let before = after(attempt, replies.drop_last());
    if before.current == Move::Taken {
        only_a_created_lock_is_taken(attempt, replies.drop_last());
        let i = choose|i: int|
            0 <= i < replies.len() - 1 && replies.drop_last()[i] == Reply::Created(true);
        assert(replies[i] == Reply::Created(true));
    } else {
        assert(replies[replies.len() - 1] == Reply::Created(true));
    }
}

/// A lock is broken only where it was found to be older than a crashed run allows: one that
/// someone else holds is left alone.
pub proof fn only_a_stale_lock_is_broken(attempt: Attempt, replies: Seq<Reply>)
    requires
        attempt.current == Move::Create,
        after(attempt, replies).current == Move::Break,
    ensures
        exists|i: int|
            0 <= i < replies.len() && (#[trigger] replies[i]) is Age && stale(
                replies[i]->Age_0,
                attempt.stale_after,
            ),
    decreases replies.len(),
{
    lemma_limits_stay(attempt, replies.drop_last());
    let before = after(attempt, replies.drop_last());
    if before.current == Move::Break {
        only_a_stale_lock_is_broken(attempt, replies.drop_last());
        let i = choose|i: int|
            0 <= i < replies.len() - 1 && (#[trigger] replies.drop_last()[i]) is Age && stale(
                replies.drop_last()[i]->Age_0,
                attempt.stale_after,
            );
        assert(replies[i] == replies.drop_last()[i]);
    } else {
        assert(replies[replies.len() - 1] is Age);
    }
}

/// An attempt is given up only once its time is over.
pub proof fn only_the_deadline_ends_the_wait(attempt: Attempt, replies: Seq<Reply>)
    requires
        attempt.current == Move::Create,
        after(attempt, replies).current == Move::GivenUp,
    ensures
        exists|i: int|
            0 <= i < replies.len() && (#[trigger] replies[i]) is Time && replies[i]->Time_0
                >= attempt.deadline,
    decreases replies.len(),
{
    lemma_limits_stay(attempt, replies.drop_last());
    let before = after(attempt, replies.drop_last());
    if before.current == Move::GivenUp {
        only_the_deadline_ends_the_wait(attempt, replies.drop_last());
        let i = choose|i: int|
            0 <= i < replies.len() - 1 && (#[trigger] replies.drop_last()[i]) is Time
                && replies.drop_last()[i]->Time_0 >= attempt.deadline;
        assert(replies[i] == replies.drop_last()[i]);
    } else {
        assert(replies[replies.len() - 1] is Time);
    }
}

proof fn lemma_limits_stay(attempt: Attempt, replies: Seq<Reply>)
    ensures
        after(attempt, replies).deadline == attempt.deadline,
        after(attempt, replies).stale_after == attempt.stale_after,
    decreases replies.len(),
{
    if replies.len() > 0 {
        lemma_limits_stay(attempt, replies.drop_last());
    }
}

/// Whether a reply is what comes of a move where the lock directory stands or not, as `there` says.
pub open spec fn is_true_to(current: Move, there: bool, reply: Reply) -> bool {
    match current {
        Move::Create | Move::CreateAgain => reply == Reply::Created(!there),
        Move::TellAge => reply is Age,
        Move::TellTime => reply is Time,
        Move::Break | Move::Sleep => reply == Reply::Tried,
        Move::Taken | Move::GivenUp => true,
    }
}

/// Whether the lock directory stands after a run of replies where nobody else touches it.
pub open spec fn stands(attempt: Attempt, there: bool, replies: Seq<Reply>) -> bool
    decreases replies.len(),
{
    if replies.len() == 0 {
        there
    } else {
        match after(attempt, replies.drop_last()).current {
            Move::Create | Move::CreateAgain => true,
            Move::Break => false,
            _ => stands(attempt, there, replies.drop_last()),
        }
    }
}

/// Whether each of a run of replies is what comes of its move where nobody else touches the lock.
pub open spec fn undisturbed(attempt: Attempt, there: bool, replies: Seq<Reply>) -> bool
    decreases replies.len(),
{
    replies.len() > 0 ==> {
        &&& undisturbed(attempt, there, replies.drop_last())
        &&& is_true_to(
            after(attempt, replies.drop_last()).current,
            stands(attempt, there, replies.drop_last()),
            replies.last(),
        )
    }
}

/// Whether the lock directory stands once what an attempt holds is given back.
pub open spec fn stands_released(attempt: Attempt, there: bool, replies: Seq<Reply>) -> bool {
    if after(attempt, replies).current == Move::Taken {
        false
    } else {
        stands(attempt, there, replies)
    }
}

proof fn lemma_where_it_stands(attempt: Attempt, there: bool, replies: Seq<Reply>)
    requires
        attempt.current == Move::Create,
        undisturbed(attempt, there, replies),
    ensures
        match after(attempt, replies).current {
            Move::Taken => stands(attempt, there, replies),
            Move::CreateAgain => !stands(attempt, there, replies),
            _ => stands(attempt, there, replies) == there,
        },
    decreases replies.len(),
{
    if replies.len() > 0 {
        lemma_where_it_stands(attempt, there, replies.drop_last());
    }
}

/// The lock stands while it is held, and an attempt that is given up leaves the lock of someone
/// else as it was: it stands before, and it stands after.
pub proof fn held_locks_stand(attempt: Attempt, there: bool, replies: Seq<Reply>)
    requires
        attempt.current == Move::Create,
        undisturbed(attempt, there, replies),
    ensures
        after(attempt, replies).current == Move::Taken ==> stands(attempt, there, replies),
        after(attempt, replies).current == Move::GivenUp ==> stands_released(
            attempt,
            there,
            replies,
        ) == there,
{
    lemma_where_it_stands(attempt, there, replies);
}

/// A lock that was taken and given back can be taken again: the next attempt has it at once.
pub proof fn released_locks_can_be_taken(
    attempt: Attempt,
    there: bool,
    replies: Seq<Reply>,
    next: Attempt,
    reply: Reply,
)
    requires
        after(attempt, replies).current == Move::Taken,
        next.current == Move::Create,
        is_true_to(next.current, stands_released(attempt, there, replies), reply),
    ensures
        following(next, reply) == Move::Taken,
{
}

/// A lock counts as left by a crashed run after thirty seconds, an attempt is given up after twelve
/// tenths of a second, and between two attempts a tenth of a second is slept.
pub proof fn limits_are_kept()
    ensures
        STALE_AFTER == 30 * 1000 * 1000 * 1000,
        WAIT == 1200 * 1000 * 1000,
        POLL == 100 * 1000 * 1000,
{
}

/// Every round of an attempt goes the same way, whatever the times are. A directory that can be
/// created is the lock, taken. One that stands and is older than a crashed run allows is broken and
/// created again. One that stands and is younger, or whose age cannot be told, is left alone: the
/// attempt is given up where its time is over, and else it sleeps and starts a new round. Breaking
/// a lock that cannot be created again ends the round in the same way.
pub proof fn rounds_are_alike(attempt: Attempt, age: Option<u128>, now: u128)
    requires
        attempt.current == Move::Create,
    ensures
        after(attempt, seq![Reply::Created(true)]).current == Move::Taken,
        (age matches Some(old) && old > attempt.stale_after) ==> {
            &&& after(attempt, seq![Reply::Created(false), Reply::Age(age)]).current == Move::Break
            &&& after(
                attempt,
                seq![
                    Reply::Created(false),
                    Reply::Age(age),
                    Reply::Tried,
                    Reply::Created(true),
                ],
            ).current == Move::Taken
            &&& after(
                attempt,
                seq![
                    Reply::Created(false),
                    Reply::Age(age),
                    Reply::Tried,
                    Reply::Created(false),
                    Reply::Time(now),
                ],
            ).current == if now >= attempt.deadline {
                Move::GivenUp
            } else {
                Move::Sleep
            }
        },
        !(age matches Some(old) && old > attempt.stale_after) ==> {
            &&& after(
                attempt,
                seq![Reply::Created(false), Reply::Age(age), Reply::Time(now)],
            ).current == if now >= attempt.deadline {
                Move::GivenUp
            } else {
                Move::Sleep
            }
            &&& now < attempt.deadline ==> after(
                attempt,
                seq![Reply::Created(false), Reply::Age(age), Reply::Time(now), Reply::Tried],
            ) == attempt
        },
{
    reveal_with_fuel(after, 6);
    assert(seq![Reply::Created(true)].drop_last() =~= Seq::empty());
    let one = seq![Reply::Created(false)];
    let two = seq![Reply::Created(false), Reply::Age(age)];
    assert(one.drop_last() =~= Seq::empty());
    assert(two.drop_last() =~= one);
    let broken = seq![Reply::Created(false), Reply::Age(age), Reply::Tried];
    assert(broken.drop_last() =~= two);
    let again = seq![
        Reply::Created(false),
        Reply::Age(age),
        Reply::Tried,
        Reply::Created(true),
    ];
    assert(again.drop_last() =~= broken);
    let refused = seq![
        Reply::Created(false),
        Reply::Age(age),
        Reply::Tried,
        Reply::Created(false),
    ];
    assert(refused.drop_last() =~= broken);
    let late = seq![
        Reply::Created(false),
        Reply::Age(age),
        Reply::Tried,
        Reply::Created(false),
        Reply::Time(now),
    ];
    assert(late.drop_last() =~= refused);
    let told = seq![Reply::Created(false), Reply::Age(age), Reply::Time(now)];
    assert(told.drop_last() =~= two);
    let slept = seq![Reply::Created(false), Reply::Age(age), Reply::Time(now), Reply::Tried];
    assert(slept.drop_last() =~= told);
    lemma_limits_stay(attempt, slept);
}

/// A lock that someone else holds is waited for as long as was said, from the start on: at a later
/// time the attempt is given up exactly if that long has passed, and a lock older than was said is
/// not waited for but broken.
pub proof fn waits_last_as_long_as_said(
    now: u128,
    wait: u128,
    stale_after: u128,
    age: u128,
    later: u128,
)
    requires
        now + wait <= u128::MAX,
    ensures
        ({
            let attempt = started(now, wait, stale_after);
            let seen = after(attempt, seq![Reply::Created(false), Reply::Age(Some(age))]);
            let told = after(
                attempt,
                seq![Reply::Created(false), Reply::Age(Some(age)), Reply::Time(later)],
            );
            &&& attempt.current == Move::Create
            &&& seen.current == Move::Break <==> age > stale_after
            &&& age <= stale_after ==> (told.current == Move::GivenUp <==> later - now >= wait)
            &&& age <= stale_after ==> (told.current == Move::Sleep <==> later - now < wait)
        }),
{
    let attempt = started(now, wait, stale_after);
    rounds_are_alike(attempt, Some(age), later);
    reveal_with_fuel(after, 3);
    let one = seq![Reply::Created(false)];
    let two = seq![Reply::Created(false), Reply::Age(Some(age))];
    assert(one.drop_last() =~= Seq::empty());
    assert(two.drop_last() =~= one);
}

/// The lock of the layout is tried for exactly where it is not held already. One that someone else
/// holds is then waited for twelve tenths of a second, and broken where it is older than thirty
/// seconds.
pub proof fn the_layout_is_waited_for(already_held: bool, now: u128, age: u128, later: u128)
    requires
        now + 1_200_000_000 <= u128::MAX,
    ensures
        holding(already_held, now) is None <==> already_held,
        holding(already_held, now) matches Some(attempt) ==> {
            let seen = after(attempt, seq![Reply::Created(false), Reply::Age(Some(age))]);
            let told = after(
                attempt,
                seq![Reply::Created(false), Reply::Age(Some(age)), Reply::Time(later)],
            );
            &&& attempt.current == Move::Create
            &&& seen.current == Move::Break <==> age > 30_000_000_000
            &&& age <= 30_000_000_000 ==> (told.current == Move::GivenUp <==> later - now
                >= 1_200_000_000)
        },
{
    waits_last_as_long_as_said(now, WAIT, STALE_AFTER, age, later);
}

} // verus!
