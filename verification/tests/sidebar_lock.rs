use herdr_nvim::host::Host;
use herdr_nvim::mock::MockHerdr;
use herdr_nvim::mock_machine::MockMachine;
use herdr_nvim::sidebar_lock::{
    hold, hold_in, is_stale, lock_dir, Attempt, Guard, Move, Reply, POLL, STALE_AFTER, WAIT,
};
use herdr_nvim::workbench::Workbench;

/// A lock directory, and the clock of the machine that it is on.
struct Place {
    /// When the directory was created, if it is there.
    created: Option<u128>,
    now: u128,
}

impl Place {
    fn carry_out(&mut self, step: Move) -> Reply {
        match step {
            Move::Create | Move::CreateAgain => {
                let free = self.created.is_none();
                if free {
                    self.created = Some(self.now);
                }
                Reply::Created(free)
            }
            Move::TellAge => Reply::Age(self.created.map(|created| self.now - created)),
            Move::Break => {
                self.created = None;
                Reply::Tried
            }
            Move::TellTime => Reply::Time(self.now),
            Move::Sleep => {
                self.now += POLL;
                Reply::Tried
            }
            Move::Taken | Move::GivenUp => unreachable!("the attempt is over"),
        }
    }

    fn try_for(&mut self, mut attempt: Attempt) -> Guard {
        while !attempt.is_over() {
            let reply = self.carry_out(attempt.current);
            attempt.advance(reply);
        }
        attempt.guard("/tmp/lock".to_owned())
    }

    fn release(&mut self, guard: Guard) {
        if guard.dir.is_some() {
            self.created = None;
        }
    }
}

#[test]
fn holding_takes_the_lock_and_dropping_releases_it() {
    let mut place = Place {
        created: None,
        now: 5,
    };
    let guard = place.try_for(hold_in(place.now, 0, STALE_AFTER));
    assert!(guard.dir.is_some(), "an unheld lock must be taken");
    assert!(
        place.created.is_some(),
        "the lock directory must exist while held"
    );
    place.release(guard);
    assert!(
        place.created.is_none(),
        "dropping the guard must release the lock"
    );
}

#[test]
fn a_lock_someone_else_holds_is_left_alone() {
    let mut place = Place {
        created: Some(5),
        now: 5,
    };
    let guard = place.try_for(hold_in(place.now, 0, STALE_AFTER));
    assert!(guard.dir.is_none(), "a held lock must not be taken");
    place.release(guard);
    assert!(
        place.created.is_some(),
        "a guard that never took the lock must not release it"
    );
}

#[test]
fn a_caller_that_already_holds_the_lock_is_not_made_to_wait_for_itself() {
    let mut place = Place {
        created: Some(5),
        now: 6,
    };
    let guard = match hold(true, place.now) {
        Some(attempt) => place.try_for(attempt),
        None => Guard { dir: None },
    };
    assert!(
        guard.dir.is_none(),
        "a caller holding the lock must get a guard that releases nothing"
    );
    assert_eq!(place.now, 6, "nothing is waited for");
    let mut h = Workbench::new(
        MockHerdr::default(),
        MockMachine {
            locked: place.created.is_some(),
            ..Default::default()
        },
    );
    h.release_lock(&guard);
    assert!(h.machine.locked, "the caller's own lock must survive");

    assert_eq!(hold(true, 0), None);
    assert_eq!(
        hold(false, 7),
        Some(Attempt {
            deadline: 7 + WAIT,
            stale_after: STALE_AFTER,
            current: Move::Create,
        })
    );
}

#[test]
fn a_lock_left_by_a_crashed_run_is_broken() {
    // Everything is older than a zero-length staleness window, which is the same branch a
    // 30-second-old lock takes.
    let mut place = Place {
        created: Some(5),
        now: 6,
    };
    let guard = place.try_for(hold_in(place.now, 0, 0));
    assert!(guard.dir.is_some(), "a stale lock must be broken and taken");
    place.release(guard);
    assert!(place.created.is_none());
}

#[test]
fn a_lock_is_waited_for_until_the_time_is_over() {
    let mut place = Place {
        created: Some(0),
        now: 0,
    };
    let guard = place.try_for(hold_in(0, WAIT, STALE_AFTER));
    assert!(guard.dir.is_none());
    assert_eq!(place.now, WAIT);
}

#[test]
fn a_lock_is_stale_only_beyond_its_age() {
    assert!(!is_stale(None, 0));
    assert!(!is_stale(Some(STALE_AFTER), STALE_AFTER));
    assert!(is_stale(Some(STALE_AFTER + 1), STALE_AFTER));
}

#[test]
fn the_lock_is_in_the_directory_for_temporary_files() {
    assert_eq!(lock_dir("/tmp"), "/tmp/herdr-sidebar-ensure.lock");
}

#[test]
fn a_reply_to_something_else_changes_nothing() {
    let mut attempt = hold_in(0, 1, 2);
    attempt.advance(Reply::Tried);
    assert_eq!(attempt, hold_in(0, 1, 2));
}
