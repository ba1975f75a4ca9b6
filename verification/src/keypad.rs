//! The 16-key keypad: externally set by the host, read by the interpreter.

use vstd::prelude::*;

verus! {

/// All sixteen keys up.
pub open spec fn all_keys_up() -> Seq<bool> {
    Seq::new(16, |i: int| false)
}

/// Smallest index at or after `k` whose key is down in `keys` but was not
/// down in `snapshot`; `None` if there is none.
pub open spec fn first_new_key_from(keys: Seq<bool>, snapshot: Seq<bool>, k: int) -> Option<u8>
    decreases 16 - k,
{
    if k < 0 || k >= 16 {
        None
    } else if keys[k] && !snapshot[k] {
        Some(k as u8)
    } else {
        first_new_key_from(keys, snapshot, k + 1)
    }
}

/// Key state, indexed 0..15: `true` is down.
pub struct Keypad {
    pub keys: Vec<bool>,
}

impl Keypad {
    /// There is a state for each of the sixteen keys.
    pub open spec fn wf(&self) -> bool {
        self.keys@.len() == 16
    }

    /// The key states as a sequence.
    pub open spec fn state(&self) -> Seq<bool> {
        self.keys@
    }

    pub fn new() -> (kp: Keypad)
        ensures
            kp.wf(),
            kp.state() == all_keys_up(),
    {
        let mut keys: Vec<bool> = Vec::new();
        while keys.len() < 16
            invariant
                keys@.len() <= 16,
                forall|i: int| 0 <= i < keys@.len() ==> !(#[trigger] keys@[i]),
            decreases 16 - keys@.len(),
        {
            keys.push(false);
        }
        proof {
            assert(keys@ =~= all_keys_up());
        }
        Keypad { keys }
    }

    /// Mark key `i` down. Idempotent.
    pub fn key_down(&mut self, i: u8)
        requires
            old(self).wf(),
            i < 16,
        ensures
            final(self).wf(),
            final(self).state() == old(self).state().update(i as int, true),
    {
        self.keys.set(i as usize, true);
    }

    /// Mark key `i` up. Idempotent.
    pub fn key_up(&mut self, i: u8)
        requires
            old(self).wf(),
            i < 16,
        ensures
            final(self).wf(),
            final(self).state() == old(self).state().update(i as int, false),
    {
        self.keys.set(i as usize, false);
    }

    /// Whether key `i` is down.
    pub fn is_down(&self, i: u8) -> (down: bool)
        requires
            self.wf(),
            i < 16,
        ensures
            down == self.state()[i as int],
    {
        self.keys[i as usize]
    }

    /// A copy of the current key states.
    pub fn snapshot(&self) -> (snap: Vec<bool>)
        requires
            self.wf(),
        ensures
            snap@ == self.state(),
    {
        let mut snap: Vec<bool> = Vec::new();
        let mut k: usize = 0;
        while k < 16
            invariant
                self.wf(),
                k <= 16,
                snap@.len() == k,
                forall|i: int| 0 <= i < k ==> #[trigger] snap@[i] == self.state()[i],
            decreases 16 - k,
        {
            snap.push(self.keys[k]);
            k = k + 1;
        }
        proof {
            assert(snap@ =~= self.state());
        }
        snap
    }

    /// Lowest-numbered key that is down now but was not down in `snapshot`.
    pub fn first_pressed_since(&self, snapshot: &Vec<bool>) -> (found: Option<u8>)
        requires
            self.wf(),
            snapshot@.len() == 16,
        ensures
            found == first_new_key_from(self.state(), snapshot@, 0),
    {
        let mut k: usize = 0;
        while k < 16
            invariant
                self.wf(),
                snapshot@.len() == 16,
                k <= 16,
                first_new_key_from(self.state(), snapshot@, 0) == first_new_key_from(
                    self.state(),
                    snapshot@,
                    k as int,
                ),
            decreases 16 - k,
        {
            if self.keys[k] && !snapshot[k] {
                return Some(k as u8);
            }
            k = k + 1;
        }
        None
    }
}

} // verus!
