use vstd::prelude::*;

verus! {

/// Number of keys on the hexadecimal keypad.
pub const KEYS: usize = 16;

/// The lowest-indexed pressed key at or after position `i`, if any.
pub open spec fn spec_first_key_from(keys: Seq<bool>, i: int) -> Option<u8>
    decreases KEYS - i,
{
    if i < 0 || i >= KEYS {
        None
    } else if keys[i] {
        Some(i as u8)
    } else {
        spec_first_key_from(keys, i + 1)
    }
}

/// The lowest-indexed pressed key, if any: the canonical tie-break for
/// the blocking-input opcode.
pub open spec fn spec_first_key(keys: Seq<bool>) -> Option<u8> {
    spec_first_key_from(keys, 0)
}

/// Whether key `key` is reported down; keys outside 0..16 are never down.
pub open spec fn spec_key_down(keys: Seq<bool>, key: int) -> bool {
    0 <= key < KEYS && keys[key]
}

/// An all-released keypad.
pub open spec fn spec_blank_keys() -> Seq<bool> {
    Seq::new(KEYS as nat, |i: int| false)
}

/// What `spec_first_key_from` returns: a pressed key that is the lowest
/// at or after `i`, or nothing when no key at or after `i` is pressed.
pub proof fn lemma_first_key_from(keys: Seq<bool>, i: int)
    requires
        keys.len() == KEYS,
        0 <= i <= KEYS,
    ensures
        match spec_first_key_from(keys, i) {
            Some(k) => i <= k < KEYS && keys[k as int]
                && forall|j: int| i <= j < k ==> !keys[j],
            None => forall|j: int| i <= j < KEYS ==> !keys[j],
        },
    decreases KEYS - i,
{
    if i < KEYS && !keys[i] {
        lemma_first_key_from(keys, i + 1);
    }
}

/// 16 boolean key flags, indexed 0x0 through 0xF, written by the host
/// before each step.
pub struct Keyboard {
    pub keys: Vec<bool>,
}

impl View for Keyboard {
    type V = Seq<bool>;

    open spec fn view(&self) -> Seq<bool> {
        self.keys@
    }
}

impl Keyboard {
    pub open spec fn wf(&self) -> bool {
        self@.len() == KEYS
    }

    pub fn new() -> (k: Keyboard)
        ensures
            k.wf(),
            k@ == spec_blank_keys(),
    {
        let mut keys: Vec<bool> = Vec::new();
        while keys.len() < KEYS
            invariant
                keys@.len() <= KEYS,
                forall|i: int| 0 <= i < keys@.len() ==> !keys@[i],
            decreases KEYS - keys@.len(),
        {
            keys.push(false);
        }
        let k = Keyboard { keys };
        proof {
            assert(k@ =~= spec_blank_keys());
        }
        k
    }

    /// Records one key's state; keys outside 0..16 are ignored.
    pub fn set(&mut self, key: u8, down: bool)
        requires
            old(self).wf(),
        ensures
            final(self).wf(),
            final(self)@ == (if key < KEYS {
                old(self)@.update(key as int, down)
            } else {
                old(self)@
            }),
    {
        if (key as usize) < KEYS {
            self.keys[key as usize] = down;
        }
    }

    pub fn is_key_pressed(&self, key: u8) -> (r: bool)
        requires
            self.wf(),
        ensures
            r == spec_key_down(self@, key as int),
    {
        if (key as usize) < KEYS {
            self.keys[key as usize]
        } else {
            false
        }
    }

    pub fn get_pressed_key(&self) -> (r: Option<u8>)
        requires
            self.wf(),
        ensures
            r == spec_first_key(self@),
    {
        let mut i: usize = 0;
        while i < KEYS
            invariant
                self.wf(),
                i <= KEYS,
                spec_first_key(self@) == spec_first_key_from(self@, i as int),
            decreases KEYS - i,
        {
            if self.keys[i] {
                return Some(i as u8);
            }
            i = i + 1;
        }
        None
    }

    pub fn clear(&mut self)
        requires
            old(self).wf(),
        ensures
            final(self).wf(),
            final(self)@ == spec_blank_keys(),
    {
        let mut i: usize = 0;
        while i < KEYS
            invariant
                self@.len() == KEYS,
                i <= KEYS,
                forall|j: int| 0 <= j < i ==> !self@[j],
            decreases KEYS - i,
        {
            self.keys[i] = false;
            i = i + 1;
        }
        proof {
            assert(final(self)@ =~= spec_blank_keys());
        }
    }

    /// A copy of all 16 key flags, for a host that shows the keypad state.
    pub fn pressed_keys(&self) -> (r: Vec<bool>)
        requires
            self.wf(),
        ensures
            r@ == self@,
    {
        let mut out: Vec<bool> = Vec::new();
        let mut i: usize = 0;
        while i < KEYS
            invariant
                self.wf(),
                i <= KEYS,
                out@.len() == i,
                forall|j: int| 0 <= j < i ==> out@[j] == self@[j],
            decreases KEYS - i,
        {
            out.push(self.keys[i]);
            i = i + 1;
        }
        proof {
            assert(out@ =~= self@);
        }
        out
    }
}

} // verus!
