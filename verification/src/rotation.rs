//! Going through API keys in turn.

use vstd::arithmetic::div_mod::*;
use vstd::prelude::*;

verus! {

/// The key that is tried at `offset` in a pass over `n` keys that starts at key
/// `start`.
pub open spec fn key_at(start: int, offset: int, n: int) -> int {
    (start + offset) % n
}

/// The key that is tried at `offset` in a pass over `n` keys that starts at key
/// `start`.
pub fn key_index(start: usize, offset: usize, n: usize) -> (r: usize)
    requires
        start < n,
        offset < n,
    ensures
        r == key_at(start as int, offset as int, n as int),
        r < n,
{
    if offset < n - start {
        proof {
            lemma_small_mod((start + offset) as nat, n as nat);
        }
        start + offset
    } else {
        proof {
            lemma_small_mod((start + offset - n) as nat, n as nat);
            lemma_mod_add_multiples_vanish(start + offset - n, n as int);
        }
        offset - (n - start)
    }
}

/// The key at which a pass starts when the shared cursor stands at `cursor`.
pub fn start_key(cursor: usize, n: usize) -> (r: usize)
    requires
        n > 0,
    ensures
        r == cursor as int % n as int,
        r < n,
{
    cursor % n
}

/// A pass over the keys tries each of them exactly once.
pub proof fn law_pass_tries_every_key_once(start: int, n: int, key: int)
    requires
        0 <= start < n,
        0 <= key < n,
    ensures
        exists|offset: int| 0 <= offset < n && #[trigger] key_at(start, offset, n) == key,
        forall|a: int, b: int|
            0 <= a < n && 0 <= b < n && #[trigger] key_at(start, a, n) == #[trigger] key_at(
                start,
                b,
                n,
            ) ==> a == b,
{
    let offset = if key >= start {
        key - start
    } else {
        key - start + n
    };
    lemma_key_at(start, offset, n);
    assert(key_at(start, offset, n) == key);
    assert forall|a: int, b: int|
        0 <= a < n && 0 <= b < n && #[trigger] key_at(start, a, n) == #[trigger] key_at(
            start,
            b,
            n,
        ) implies a == b by {
        lemma_key_at(start, a, n);
        lemma_key_at(start, b, n);
    }
}

proof fn lemma_key_at(start: int, offset: int, n: int)
    requires
        0 <= start < n,
        0 <= offset < n,
    ensures
        key_at(start, offset, n) == if start + offset < n {
            start + offset
        } else {
            start + offset - n
        },
{
    if start + offset < n {
        lemma_small_mod((start + offset) as nat, n as nat);
    } else {
        lemma_small_mod((start + offset - n) as nat, n as nat);
        lemma_mod_add_multiples_vanish(start + offset - n, n);
    }
}

// ─── Two passes ──────────────────────────────────────────────────────────

/// Two passes over the keys with a pause between them: each key is tried once; if
/// none will do, once more after the pause.
#[derive(Debug)]
pub struct TwoPasses {
    n_keys: usize,
    /// The key that is tried first.
    start: usize,
    /// How many keys have been tried in this pass.
    offset: usize,
    /// Whether the pause lies behind.
    second_pass: bool,
}

/// The model of [`TwoPasses`].
#[verifier::ext_equal]
pub struct PassesView {
    pub n_keys: int,
    pub start: int,
    pub offset: int,
    pub second_pass: bool,
}

/// What to do when a key would not do.
#[derive(Debug, Clone, Copy, PartialEq, Eq, Structural)]
pub enum PassStep {
    /// Try this key.
    TryKey(usize),
    /// Wait this many seconds, then start the second pass.
    Sleep(u64),
    /// No key is left.
    Exhausted,
}

impl PassesView {
    /// There are keys, and the counters are within them.
    pub open spec fn wf(self) -> bool {
        0 <= self.start < self.n_keys && 0 <= self.offset <= self.n_keys
    }

    /// Whether a key is being tried.
    pub open spec fn trying(self) -> bool {
        self.offset < self.n_keys
    }

    /// The key that is being tried.
    pub open spec fn key(self) -> int {
        key_at(self.start, self.offset, self.n_keys)
    }

    /// The passes when one more key would not do.
    pub open spec fn failed(self) -> PassesView {
        PassesView { offset: self.offset + 1, ..self }
    }

    /// The passes after the pause.
    pub open spec fn rested(self) -> PassesView {
        PassesView { offset: 0, second_pass: true, ..self }
    }

    /// What follows when the key that is being tried will not do: the next key, or
    /// behind the last key of the first pass the pause, or behind that of the
    /// second nothing.
    pub open spec fn step(self) -> PassStep {
        if self.failed().trying() {
            PassStep::TryKey(self.failed().key() as usize)
        } else if !self.second_pass {
            PassStep::Sleep(2)
        } else {
            PassStep::Exhausted
        }
    }
}

impl View for TwoPasses {
    type V = PassesView;

    closed spec fn view(&self) -> PassesView {
        PassesView {
            n_keys: self.n_keys as int,
            start: self.start as int,
            offset: self.offset as int,
            second_pass: self.second_pass,
        }
    }
}

impl TwoPasses {
    /// Starts with the key at which the shared cursor stands.
    pub fn new(cursor: usize, n_keys: usize) -> (r: Self)
        requires
            n_keys > 0,
        ensures
            r@.wf(),
            r@.trying(),
            r@ == passes_after(n_keys as int, cursor as int % n_keys as int, 0),
    {
        TwoPasses { n_keys, start: start_key(cursor, n_keys), offset: 0, second_pass: false }
    }

    /// The key that is being tried.
    pub fn key(&self) -> (r: usize)
        requires
            self@.wf(),
            self@.trying(),
        ensures
            r == self@.key(),
            r < self@.n_keys,
    {
        key_index(self.start, self.offset, self.n_keys)
    }

    /// What to do when the key that is being tried will not do.
    pub fn on_failure(&mut self) -> (r: PassStep)
        requires
            old(self)@.wf(),
            old(self)@.trying(),
        ensures
            final(self)@.wf(),
            final(self)@ == old(self)@.failed(),
            r == old(self)@.step(),
            r matches PassStep::TryKey(k) ==> k == final(self)@.key() && k < final(self)@.n_keys,
    {
        self.offset = self.offset + 1;
        if self.offset < self.n_keys {
            PassStep::TryKey(key_index(self.start, self.offset, self.n_keys))
        } else if !self.second_pass {
            PassStep::Sleep(2)
        } else {
            PassStep::Exhausted
        }
    }

    /// The key to try first after the pause.
    pub fn on_rested(&mut self) -> (r: usize)
        requires
            old(self)@.wf(),
        ensures
            final(self)@.wf(),
            final(self)@.trying(),
            final(self)@ == old(self)@.rested(),
            r == final(self)@.key(),
            r < final(self)@.n_keys,
    {
        self.offset = 0;
        self.second_pass = true;
        key_index(self.start, self.offset, self.n_keys)
    }
}

/// The passes when `i` keys were tried in vain, and the pause, if it came to that,
/// is over.
pub open spec fn passes_after(n_keys: int, start: int, i: nat) -> PassesView
    decreases i,
{
    if i == 0 {
        PassesView { n_keys, start, offset: 0, second_pass: false }
    } else {
        let run = passes_after(n_keys, start, (i - 1) as nat).failed();
        if run.offset == n_keys && !run.second_pass {
            run.rested()
        } else {
            run
        }
    }
}

/// As long as no key will do, all keys are tried in turn from the first one, then
/// there is a pause, then they are tried once more in the same order; after that no
/// key is left.
pub proof fn law_keys_are_tried_in_two_passes(n_keys: int, start: int, i: nat)
    requires
        0 <= start < n_keys,
        i <= 2 * n_keys,
    ensures
        passes_after(n_keys, start, i).wf(),
        passes_after(n_keys, start, i) == (PassesView {
            n_keys,
            start,
            offset: if i < n_keys {
                i as int
            } else {
                i - n_keys
            },
            second_pass: i >= n_keys,
        }),
        i < n_keys ==> passes_after(n_keys, start, i).key() == key_at(start, i as int, n_keys),
        n_keys <= i < 2 * n_keys ==> passes_after(n_keys, start, i).key() == passes_after(
            n_keys,
            start,
            (i - n_keys) as nat,
        ).key(),
        i == 2 * n_keys ==> !passes_after(n_keys, start, i).trying(),
        i + 1 == n_keys ==> passes_after(n_keys, start, i).step() == PassStep::Sleep(2),
        i + 1 == 2 * n_keys ==> passes_after(n_keys, start, i).step() == PassStep::Exhausted,
    decreases i,
{
    if i > 0 {
        law_keys_are_tried_in_two_passes(n_keys, start, (i - 1) as nat);
        if n_keys <= i < 2 * n_keys {
            law_keys_are_tried_in_two_passes(n_keys, start, (i - n_keys) as nat);
        }
    }
}


/// A pass starts with its first key and goes on to the next one, from the last to
/// number zero.
pub proof fn law_pass_goes_round(start: int, offset: int, n: int)
    requires
        0 <= start < n,
        0 <= offset < n - 1,
    ensures
        key_at(start, 0, n) == start,
        key_at(start, offset, n) < n - 1 ==> key_at(start, offset + 1, n) == key_at(
            start,
            offset,
            n,
        ) + 1,
        key_at(start, offset, n) == n - 1 ==> key_at(start, offset + 1, n) == 0,
{
    lemma_key_at(start, 0, n);
    lemma_key_at(start, offset, n);
    lemma_key_at(start, offset + 1, n);
}

/// While keys are left in a pass, the next of them is tried when one will not do.
pub proof fn law_next_key_is_tried(n_keys: int, start: int, i: nat)
    requires
        0 <= start < n_keys <= usize::MAX,
        i + 1 < n_keys || (n_keys <= i && i + 1 < 2 * n_keys),
    ensures
        passes_after(n_keys, start, i).step() matches PassStep::TryKey(k) && k == passes_after(
            n_keys,
            start,
            i + 1,
        ).key() && k == (start + i + 1) % n_keys,
{
    law_keys_are_tried_in_two_passes(n_keys, start, i);
    law_keys_are_tried_in_two_passes(n_keys, start, i + 1);
    let offset = passes_after(n_keys, start, i).offset + 1;
    lemma_key_at(start, offset, n_keys);
    if i >= n_keys {
        assert((start + i + 1) % n_keys == (start + offset) % n_keys) by {
            assert(start + i + 1 == n_keys + (start + offset));
            lemma_mod_add_multiples_vanish(start + offset, n_keys);
        }
    }
}

} // verus!
