use priority_semaphore::{WaitQueue, WaiterEntry};
use std::sync::{Arc, Mutex};
use std::task::{Wake, Waker};

struct Bell(Mutex<usize>);

impl Wake for Bell {
    fn wake(self: Arc<Self>) {
        *self.0.lock().unwrap() += 1;
    }
}

fn bell() -> (Arc<Bell>, Waker) {
    let bell = Arc::new(Bell(Mutex::new(0)));
    (bell.clone(), Waker::from(bell))
}

fn rings(bell: &Arc<Bell>) -> usize {
    *bell.0.lock().unwrap()
}

fn silent() -> Waker {
    bell().1
}

fn drain(queue: &mut WaitQueue) -> Vec<(i32, usize)> {
    let mut out = Vec::new();
    while let Some(WaiterEntry { prio, id, .. }) = queue.pop() {
        out.push((prio, id));
    }
    out
}

#[test]
fn new_queue_is_empty() {
    let mut queue = WaitQueue::new();
    assert_eq!(queue.len(), 0);
    assert!(queue.pop().is_none());
    assert!(!queue.ids_exhausted());
}

#[test]
fn push_hands_out_consecutive_ids() {
    let mut queue = WaitQueue::new();
    assert_eq!(queue.push(3, silent()), 0);
    assert_eq!(queue.push(-7, silent()), 1);
    assert_eq!(queue.push(3, silent()), 2);
    assert_eq!(queue.len(), 3);
}

#[test]
fn ids_are_not_reused_after_pop_or_remove() {
    let mut queue = WaitQueue::new();
    assert_eq!(queue.push(1, silent()), 0);
    assert_eq!(queue.push(2, silent()), 1);
    queue.remove(0);
    assert!(queue.pop().is_some());
    assert_eq!(queue.len(), 0);
    assert_eq!(queue.push(5, silent()), 2);
}

#[test]
fn pop_returns_highest_priority_first() {
    let mut queue = WaitQueue::new();
    for prio in [4, -2, 9, 0, 7, 1, 8, -5, 3] {
        queue.push(prio, silent());
    }
    let order: Vec<i32> = drain(&mut queue).into_iter().map(|(prio, _)| prio).collect();
    assert_eq!(order, vec![9, 8, 7, 4, 3, 1, 0, -2, -5]);
    assert_eq!(queue.len(), 0);
}

#[test]
fn pop_returns_the_entry_that_was_pushed() {
    let mut queue = WaitQueue::new();
    let (low_bell, low) = bell();
    let (high_bell, high) = bell();
    let low_id = queue.push(1, low);
    let high_id = queue.push(10, high);
    let top = queue.pop().unwrap();
    assert_eq!(top.prio, 10);
    assert_eq!(top.id, high_id);
    top.waker.wake();
    assert_eq!(rings(&high_bell), 1);
    assert_eq!(rings(&low_bell), 0);
    let next = queue.pop().unwrap();
    assert_eq!(next.prio, 1);
    assert_eq!(next.id, low_id);
    assert!(queue.pop().is_none());
}

#[test]
fn pop_handles_extreme_priorities() {
    let mut queue = WaitQueue::new();
    queue.push(0, silent());
    queue.push(i32::MIN, silent());
    queue.push(i32::MAX, silent());
    assert_eq!(drain(&mut queue), vec![(i32::MAX, 2), (0, 0), (i32::MIN, 1)]);
}

#[test]
fn equal_priorities_all_come_out() {
    let mut queue = WaitQueue::new();
    for _ in 0..6 {
        queue.push(5, silent());
    }
    let mut ids: Vec<usize> = drain(&mut queue).into_iter().map(|(_, id)| id).collect();
    ids.sort();
    assert_eq!(ids, vec![0, 1, 2, 3, 4, 5]);
}

#[test]
fn remove_mid_priority_waiter_from_populated_queue() {
    let mut queue = WaitQueue::new();
    let mut ids = Vec::new();
    for prio in [10, 20, 30, 40, 50, 60, 70] {
        ids.push(queue.push(prio, silent()));
    }
    queue.remove(ids[3]);
    assert_eq!(queue.len(), 6);
    assert_eq!(
        drain(&mut queue),
        vec![(70, ids[6]), (60, ids[5]), (50, ids[4]), (30, ids[2]), (20, ids[1]), (10, ids[0])]
    );
}

#[test]
fn remove_top_and_last_waiters() {
    let mut queue = WaitQueue::new();
    let a = queue.push(1, silent());
    let b = queue.push(9, silent());
    let c = queue.push(5, silent());
    let d = queue.push(3, silent());
    queue.remove(b);
    queue.remove(d);
    assert_eq!(drain(&mut queue), vec![(5, c), (1, a)]);
}

#[test]
fn remove_where_the_replacement_must_rise() {
    // Slots: 100 / 10, 90 / 5, 6, 80, 85. Removing the entry of priority 5
    // puts the last one (85) under 10, from where it has to move up.
    let mut queue = WaitQueue::new();
    let mut ids = Vec::new();
    for prio in [100, 10, 90, 5, 6, 80, 85] {
        ids.push(queue.push(prio, silent()));
    }
    queue.remove(ids[3]);
    let order: Vec<i32> = drain(&mut queue).into_iter().map(|(prio, _)| prio).collect();
    assert_eq!(order, vec![100, 90, 85, 80, 10, 6]);
}

#[test]
fn remove_of_unknown_id_is_a_no_op() {
    let mut queue = WaitQueue::new();
    let a = queue.push(1, silent());
    queue.remove(17);
    assert_eq!(queue.len(), 1);
    let popped = queue.pop().unwrap();
    assert_eq!(popped.id, a);
    queue.remove(a);
    assert_eq!(queue.len(), 0);
}

#[test]
fn remove_every_waiter_in_turn() {
    for gone in 0..8usize {
        let mut queue = WaitQueue::new();
        let prios = [3, 8, 1, 9, 4, 7, 2, 6];
        for prio in prios {
            queue.push(prio, silent());
        }
        queue.remove(gone);
        let mut expected: Vec<i32> =
            prios.iter().enumerate().filter(|(id, _)| *id != gone).map(|(_, p)| *p).collect();
        expected.sort();
        expected.reverse();
        let order: Vec<i32> = drain(&mut queue).into_iter().map(|(prio, _)| prio).collect();
        assert_eq!(order, expected);
    }
}

#[test]
fn update_waker_replaces_the_stored_handle() {
    let mut queue = WaitQueue::new();
    let (old_bell, old) = bell();
    let (new_bell, new) = bell();
    let (other_bell, other) = bell();
    let id = queue.push(2, old);
    let other_id = queue.push(1, other);
    queue.update_waker(id, new);
    assert_eq!(queue.len(), 2);
    let top = queue.pop().unwrap();
    assert_eq!((top.prio, top.id), (2, id));
    top.waker.wake();
    assert_eq!(rings(&old_bell), 0);
    assert_eq!(rings(&new_bell), 1);
    let rest = queue.pop().unwrap();
    assert_eq!((rest.prio, rest.id), (1, other_id));
    rest.waker.wake();
    assert_eq!(rings(&other_bell), 1);
}

#[test]
fn update_waker_of_unknown_id_is_a_no_op() {
    let mut queue = WaitQueue::new();
    let (kept_bell, kept) = bell();
    let (stray_bell, stray) = bell();
    let id = queue.push(4, kept);
    queue.update_waker(id + 1, stray);
    assert_eq!(queue.len(), 1);
    queue.pop().unwrap().waker.wake();
    assert_eq!(rings(&kept_bell), 1);
    assert_eq!(rings(&stray_bell), 0);
}

#[test]
fn queue_agrees_with_a_sorted_list() {
    let mut queue = WaitQueue::new();
    let mut model: Vec<(i32, usize)> = Vec::new();
    let mut seed: u64 = 0x2545F4914F6CDD1D;
    for round in 0..2000u32 {
        seed ^= seed << 13;
        seed ^= seed >> 7;
        seed ^= seed << 17;
        let prio = (seed % 21) as i32 - 10;
        match (seed >> 8) % 4 {
            0 | 1 => {
                let id = queue.push(prio, silent());
                model.push((prio, id));
            }
            2 => {
                let top = queue.pop();
                match model.iter().map(|(p, _)| *p).max() {
                    None => assert!(top.is_none()),
                    Some(best) => {
                        let top = top.unwrap();
                        assert_eq!(top.prio, best);
                        let at = model.iter().position(|e| *e == (top.prio, top.id)).unwrap();
                        model.remove(at);
                    }
                }
            }
            _ => {
                let id = ((seed >> 16) % (round as u64 + 1)) as usize;
                queue.remove(id);
                model.retain(|(_, other)| *other != id);
            }
        }
        assert_eq!(queue.len(), model.len());
    }
}

#[test]
fn update_waker_leaves_every_waiter_in_its_place() {
    let prios = [5, 5, 7, 5, 7, 5, 1, 5];
    for touched in 0..prios.len() {
        let mut plain = WaitQueue::new();
        let mut updated = WaitQueue::new();
        for prio in prios {
            plain.push(prio, silent());
            updated.push(prio, silent());
        }
        updated.update_waker(touched, silent());
        assert_eq!(updated.len(), prios.len());
        assert_eq!(drain(&mut updated), drain(&mut plain));
    }
}
