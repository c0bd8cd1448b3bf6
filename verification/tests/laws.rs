use priority_semaphore::{AcquireFuture, AcquirePoll, Permit, PrioritySemaphore, TryAcquireError};
use std::sync::{Arc, Mutex};
use std::task::{Wake, Waker};

struct Bell(Mutex<usize>);

impl Wake for Bell {
    fn wake(self: Arc<Self>) {
        *self.0.lock().unwrap() += 1;
    }
}

fn bell() -> (Arc<Bell>, Waker) {
    let bell = Arc::new(Bell(Mutex::new(0)));
    (bell.clone(), Waker::from(bell))
}

fn rings(bell: &Arc<Bell>) -> usize {
    *bell.0.lock().unwrap()
}

/// A small deterministic generator of test input.
struct Dice(u64);

impl Dice {
    fn roll(&mut self, sides: u64) -> u64 {
        self.0 ^= self.0 << 13;
        self.0 ^= self.0 >> 7;
        self.0 ^= self.0 << 17;
        (self.0 >> 11) % sides
    }
}

/// What the test expects the semaphore to be.
struct Expected {
    capacity: usize,
    available: usize,
    closed: bool,
    queue: Vec<(i32, usize)>,
    granted: Vec<usize>,
    next_id: usize,
}

impl Expected {
    /// A slot is free to go: the priority of the waiter that gets it, if one does.
    fn pass_on(&mut self) -> Option<i32> {
        if !self.closed && !self.queue.is_empty() {
            return self.queue.iter().map(|(prio, _)| *prio).max();
        }
        self.available += 1;
        None
    }

    /// The waiter `id` was seen to be resumed with a slot.
    fn hand_to(&mut self, id: usize) {
        self.queue.retain(|(_, other)| *other != id);
        self.granted.push(id);
    }
}

#[test]
fn capacity_is_conserved_without_waiters() {
    let mut sem = PrioritySemaphore::new(4);
    let mut live: Vec<Permit> = Vec::new();
    let mut dice = Dice(0x9E3779B97F4A7C15);
    for _ in 0..500 {
        if dice.roll(2) == 0 {
            match sem.try_acquire(0) {
                Ok(permit) => live.push(permit),
                Err(TryAcquireError::NoPermits) => assert_eq!(live.len(), 4),
                Err(TryAcquireError::Closed) => panic!("unexpected result"),
            }
        } else if !live.is_empty() {
            let at = dice.roll(live.len() as u64) as usize;
            live.swap_remove(at).release(&mut sem);
        }
        assert_eq!(sem.available_permits() + live.len(), 4);
    }
}

#[test]
fn capacity_is_conserved_when_operations_poll_only_free_permits() {
    let mut sem = PrioritySemaphore::new(3);
    let (_, waker) = bell();
    let mut live: Vec<Permit> = Vec::new();
    for round in 0..9 {
        if sem.available_permits() > 0 {
            match sem.acquire(round).poll(&mut sem, &waker) {
                AcquirePoll::Ready(Ok(permit)) => live.push(permit),
                _ => panic!("unexpected result"),
            }
        } else {
            live.remove(0).release(&mut sem);
        }
        assert_eq!(sem.available_permits() + live.len(), 3);
        assert_eq!(sem.queued(), 0);
    }
}

#[test]
fn capacity_sum_counts_the_slot_on_its_way_to_a_waiter() {
    let mut sem = PrioritySemaphore::new(1);
    let (_, waker) = bell();
    let holder = sem.try_acquire(0).unwrap();
    let mut waiting = sem.acquire(1);
    assert!(matches!(waiting.poll(&mut sem, &waker), AcquirePoll::Pending));
    // One live permit, none free.
    assert_eq!(sem.available_permits() + 1, 1);
    holder.release(&mut sem);
    // No permit is live and none is free: the slot is the waiter's to take.
    assert_eq!(sem.available_permits(), 0);
    assert!(matches!(sem.try_acquire(0), Err(TryAcquireError::NoPermits)));
    let permit = match waiting.poll(&mut sem, &waker) {
        AcquirePoll::Ready(Ok(permit)) => permit,
        _ => panic!("unexpected result"),
    };
    assert_eq!(sem.available_permits() + 1, 1);
    permit.release(&mut sem);
    assert_eq!(sem.available_permits(), 1);
    sem.dispatch_next();
    assert_eq!(sem.available_permits(), 1);
}

#[test]
fn no_waiter_queues_while_a_permit_is_free() {
    let mut sem = PrioritySemaphore::new(2);
    let (_, waker) = bell();
    let mut ops: Vec<AcquireFuture> = Vec::new();
    let mut live: Vec<Permit> = Vec::new();
    let mut dice = Dice(0xD1B54A32D192ED03);
    for _ in 0..400 {
        match dice.roll(3) {
            0 => {
                let mut op = sem.acquire(dice.roll(5) as i32);
                match op.poll(&mut sem, &waker) {
                    AcquirePoll::Ready(Ok(permit)) => live.push(permit),
                    AcquirePoll::Ready(Err(_)) => panic!("unexpected result"),
                    AcquirePoll::Pending => ops.push(op),
                }
            }
            1 => {
                if !live.is_empty() {
                    live.remove(0).release(&mut sem);
                }
            }
            _ => {
                if !ops.is_empty() {
                    let at = dice.roll(ops.len() as u64) as usize;
                    ops.swap_remove(at).cancel(&mut sem);
                }
            }
        }
        assert!(sem.queued() == 0 || sem.available_permits() == 0);
        assert!(live.len() <= 2);
    }
}

#[test]
fn random_operations_agree_with_the_expected_state() {
    const MAX_PERMITS: usize = 5;
    const ROUNDS: usize = 10_000;

    let mut sem = PrioritySemaphore::new(MAX_PERMITS);
    let mut expected = Expected {
        capacity: MAX_PERMITS,
        available: MAX_PERMITS,
        closed: false,
        queue: Vec::new(),
        granted: Vec::new(),
        next_id: 0,
    };
    let mut dice = Dice(0xCAFEBABE);
    let mut live: Vec<Permit> = Vec::new();
    let mut pending: Vec<(AcquireFuture, i32, Arc<Bell>, Waker)> = Vec::new();
    let mut peak = 0;
    let close_at = 7_000;

    for round in 0..ROUNDS {
        let rung_before: Vec<usize> = pending.iter().map(|p| rings(&p.2)).collect();
        // The priority of the waiter that this round's freed slot should go to.
        let mut slot_for: Option<Option<i32>> = None;
        match dice.roll(5) {
            0 => {
                // A new operation, polled once.
                let prio = dice.roll(21) as i32 - 10;
                let (bell, waker) = bell();
                let mut op = sem.acquire(prio);
                match op.poll(&mut sem, &waker) {
                    AcquirePoll::Ready(Ok(permit)) => {
                        assert!(!expected.closed && expected.available > 0);
                        expected.available -= 1;
                        live.push(permit);
                    }
                    AcquirePoll::Ready(Err(_)) => assert!(expected.closed),
                    AcquirePoll::Pending => {
                        assert!(!expected.closed && expected.available == 0);
                        assert_eq!(op.wait_id(), Some(expected.next_id));
                        expected.queue.push((prio, expected.next_id));
                        expected.next_id += 1;
                        pending.push((op, prio, bell, waker));
                    }
                }
            }
            1 => {
                let prio = dice.roll(21) as i32 - 10;
                match sem.try_acquire(prio) {
                    Ok(permit) => {
                        assert!(!expected.closed && expected.available > 0);
                        expected.available -= 1;
                        live.push(permit);
                    }
                    Err(TryAcquireError::NoPermits) => {
                        assert!(!expected.closed && expected.available == 0)
                    }
                    Err(TryAcquireError::Closed) => assert!(expected.closed),
                }
            }
            2 => {
                // A live permit is released.
                if !live.is_empty() {
                    let at = dice.roll(live.len() as u64) as usize;
                    live.swap_remove(at).release(&mut sem);
                    slot_for = Some(expected.pass_on());
                }
            }
            3 => {
                // A suspended operation is abandoned.
                if !pending.is_empty() {
                    let at = dice.roll(pending.len() as u64) as usize;
                    let id = pending[at].0.wait_id().unwrap();
                    let was_queued = expected.queue.iter().any(|(_, other)| *other == id);
                    let held_slot = expected.granted.contains(&id);
                    let before = sem.queued();
                    pending[at].0.cancel(&mut sem);
                    assert!(pending[at].0.is_completed());
                    expected.queue.retain(|(_, other)| *other != id);
                    expected.granted.retain(|other| *other != id);
                    if held_slot {
                        slot_for = Some(expected.pass_on());
                    } else {
                        assert_eq!(sem.queued(), before - usize::from(was_queued));
                    }
                }
            }
            _ => {
                // A suspended operation is polled again.
                if !pending.is_empty() {
                    let at = dice.roll(pending.len() as u64) as usize;
                    let id = pending[at].0.wait_id().unwrap();
                    let outcome = {
                        let (op, _, _, waker) = &mut pending[at];
                        op.poll(&mut sem, waker)
                    };
                    match outcome {
                        AcquirePoll::Ready(Ok(permit)) => {
                            assert!(!expected.closed);
                            if expected.granted.contains(&id) {
                                expected.granted.retain(|other| *other != id);
                            } else {
                                assert!(expected.available > 0);
                                expected.available -= 1;
                            }
                            live.push(permit);
                        }
                        AcquirePoll::Ready(Err(_)) => assert!(expected.closed),
                        AcquirePoll::Pending => {
                            assert!(!expected.closed && expected.available == 0);
                            assert!(!expected.granted.contains(&id));
                        }
                    }
                }
            }
        }

        // Who was resumed in this round, and was it the right waiter?
        let resumed: Vec<usize> = (0..rung_before.len())
            .filter(|at| rings(&pending[*at].2) > rung_before[*at])
            .collect();
        match slot_for {
            Some(Some(best)) => {
                assert_eq!(resumed.len(), 1);
                let (op, prio, bell, _) = &pending[resumed[0]];
                assert_eq!(*prio, best);
                assert_eq!(rings(bell), 1);
                expected.hand_to(op.wait_id().unwrap());
            }
            _ => assert!(resumed.is_empty()),
        }
        pending.retain(|p| !p.0.is_completed());

        if round == close_at {
            let queued = expected.queue.len();
            let woken_before: usize = pending.iter().map(|p| rings(&p.2)).sum();
            sem.close();
            let woken_after: usize = pending.iter().map(|p| rings(&p.2)).sum();
            assert_eq!(woken_after, woken_before + queued);
            expected.closed = true;
            expected.queue.clear();
            expected.available += expected.granted.len();
            expected.granted.clear();
        }

        peak = peak.max(live.len());
        assert_eq!(sem.available_permits(), expected.available);
        assert_eq!(sem.queued(), expected.queue.len());
        assert_eq!(sem.is_closed(), expected.closed);
        assert_eq!(expected.available + live.len() + expected.granted.len(), expected.capacity);
    }

    for (mut op, _, _, _) in pending {
        op.cancel(&mut sem);
    }
    for permit in live {
        permit.release(&mut sem);
    }

    assert!(
        peak <= MAX_PERMITS,
        "concurrency exceeded max permits: peak = {}, limit = {}",
        peak,
        MAX_PERMITS
    );
    assert_eq!(sem.available_permits(), MAX_PERMITS, "all permits should have been returned");
    assert_eq!(sem.queued(), 0, "wait-queue should be empty after test completion");
}

#[test]
fn every_permit_returns_without_a_close() {
    const MAX_PERMITS: usize = 5;
    let mut sem = PrioritySemaphore::new(MAX_PERMITS);
    let mut dice = Dice(0x0123456789ABCDEF);
    let mut live: Vec<Permit> = Vec::new();
    let mut pending: Vec<(AcquireFuture, Waker)> = Vec::new();
    for _ in 0..5_000 {
        match dice.roll(4) {
            0 => {
                let (_, waker) = bell();
                let mut op = sem.acquire(dice.roll(21) as i32 - 10);
                match op.poll(&mut sem, &waker) {
                    AcquirePoll::Ready(Ok(permit)) => live.push(permit),
                    AcquirePoll::Ready(Err(_)) => panic!("unexpected result"),
                    AcquirePoll::Pending => pending.push((op, waker)),
                }
            }
            1 => {
                if !live.is_empty() {
                    let at = dice.roll(live.len() as u64) as usize;
                    live.swap_remove(at).release(&mut sem);
                }
            }
            2 => {
                if !pending.is_empty() {
                    let at = dice.roll(pending.len() as u64) as usize;
                    pending.swap_remove(at).0.cancel(&mut sem);
                }
            }
            _ => {
                if !pending.is_empty() {
                    let at = dice.roll(pending.len() as u64) as usize;
                    let outcome = {
                        let (op, waker) = &mut pending[at];
                        op.poll(&mut sem, waker)
                    };
                    if let AcquirePoll::Ready(Ok(permit)) = outcome {
                        live.push(permit);
                        pending.swap_remove(at);
                    }
                }
            }
        }
        assert!(live.len() <= MAX_PERMITS);
        assert!(sem.available_permits() + live.len() <= MAX_PERMITS);
    }
    // Every operation ends, then the last live permit is released.
    while let Some((mut op, waker)) = pending.pop() {
        match op.poll(&mut sem, &waker) {
            AcquirePoll::Ready(Ok(permit)) => live.push(permit),
            _ => op.cancel(&mut sem),
        }
    }
    for permit in live {
        permit.release(&mut sem);
    }
    assert_eq!(sem.available_permits(), MAX_PERMITS);
    assert_eq!(sem.queued(), 0);
}
