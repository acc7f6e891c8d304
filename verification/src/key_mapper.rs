//! Key mapping state machine with reference counting.
//! Key codes are kept in fixed bitsets so that the hot path needs no hashing
//! and no allocation.

use std::collections::HashSet;
use vstd::prelude::*;
use vstd::std_specs::hash::group_hash_axioms;

verus! {

broadcast use group_hash_axioms;

/// Number of 64-bit words in a key bitset.
pub const BITSET_LEN: usize = 16;

/// One past the largest key code the bitsets can hold (16 * 64 bits).
pub const MAX_KEY: u16 = 1024;

/// Whether `code` is marked in the bitset `words`.
pub open spec fn bit_set(words: Seq<u64>, code: u16) -> bool {
    code < MAX_KEY && (words[(code / 64) as int] & (1u64 << ((code % 64) as u64))) != 0
}

/// The set of key codes marked in the bitset `words`.
pub open spec fn code_set(words: Seq<u64>) -> Set<u16> {
    Set::new(|c: u16| bit_set(words, c))
}

proof fn lemma_or_bit(w: u64, b: u64, b2: u64)
    by (bit_vector)
    requires
        b < 64,
        b2 < 64,
    ensures
        ((w | (1u64 << b)) & (1u64 << b2)) != 0 <==> (b2 == b || (w & (1u64 << b2)) != 0),
{
}

proof fn lemma_clear_bit(w: u64, b: u64, b2: u64)
    by (bit_vector)
    requires
        b < 64,
        b2 < 64,
    ensures
        ((w & !(1u64 << b)) & (1u64 << b2)) != 0 <==> (b2 != b && (w & (1u64 << b2)) != 0),
{
}

proof fn lemma_zero_word(b: u64)
    by (bit_vector)
    requires
        b < 64,
    ensures
        (0u64 & (1u64 << b)) == 0,
{
}

/// An all-zero bitset marks no key code.
proof fn lemma_zero_bitset(words: Seq<u64>)
    requires
        words.len() == BITSET_LEN,
        forall|i: int| 0 <= i < BITSET_LEN ==> words[i] == 0u64,
    ensures
        code_set(words) == Set::<u16>::empty(),
{
    assert forall|c: u16| !bit_set(words, c) by {
        if c < MAX_KEY {
            lemma_zero_word((c % 64) as u64);
        }
    }
    assert(code_set(words) =~= Set::<u16>::empty());
}

/// Every bitset marks a finite set of at most `MAX_KEY` codes.
proof fn lemma_code_set_bounded(words: Seq<u64>)
    ensures
        code_set(words).finite(),
        code_set(words).len() <= MAX_KEY,
{
    let all = Set::<u16>::range(0u16, MAX_KEY);
    vstd::set_lib::range_set_properties::<u16>(0u16, MAX_KEY);
    assert(code_set(words).subset_of(all));
    vstd::set_lib::lemma_len_subset(code_set(words), all);
}

/// `words` with `code` marked; unchanged for codes from `MAX_KEY` on.
pub open spec fn with_bit(words: Seq<u64>, code: u16) -> Seq<u64> {
    if code < MAX_KEY {
        words.update((code / 64) as int, words[(code / 64) as int] | (1u64 << ((code % 64) as u64)))
    } else {
        words
    }
}

/// `words` with `code` unmarked; unchanged for codes from `MAX_KEY` on.
pub open spec fn without_bit(words: Seq<u64>, code: u16) -> Seq<u64> {
    if code < MAX_KEY {
        words.update((code / 64) as int, words[(code / 64) as int] & !(1u64 << ((code % 64) as u64)))
    } else {
        words
    }
}

proof fn lemma_clear_after_set_word(w: u64, b: u64)
    by (bit_vector)
    requires
        b < 64,
        (w & (1u64 << b)) == 0,
    ensures
        ((w | (1u64 << b)) & !(1u64 << b)) == w,
{
}

/// Unmarking a code right after marking it, when it was not marked before,
/// gives back exactly the bitset one started from.
pub proof fn lemma_clear_undoes_set(words: Seq<u64>, code: u16)
    requires
        words.len() == BITSET_LEN,
        !bit_set(words, code),
    ensures
        without_bit(with_bit(words, code), code) == words,
{
    if code < MAX_KEY {
        lemma_clear_after_set_word(words[(code / 64) as int], (code % 64) as u64);
        assert(without_bit(with_bit(words, code), code) =~= words);
    }
}

/// Whether `code` is marked in `bitset`.
pub fn bitset_get(bitset: &[u64; BITSET_LEN], code: u16) -> (r: bool)
    ensures
        r == bit_set(bitset@, code),
{
    code < MAX_KEY && (bitset[(code / 64) as usize] & (1u64 << ((code % 64) as u64))) != 0
}

/// Marks `code` in `bitset`; codes from `MAX_KEY` on are ignored.
pub fn bitset_set(bitset: &mut [u64; BITSET_LEN], code: u16)
    ensures
        final(bitset)@ == with_bit(old(bitset)@, code),
        forall|c: u16| #[trigger] bit_set(final(bitset)@, c) == (bit_set(old(bitset)@, c) || (c == code
            && code < MAX_KEY)),
        code < MAX_KEY ==> code_set(final(bitset)@) == code_set(old(bitset)@).insert(code),
{
    if code < MAX_KEY {
        let i = (code / 64) as usize;
        let b = (code % 64) as u64;
        bitset[i] = bitset[i] | (1u64 << b);
        proof {
            assert forall|c: u16| bit_set(bitset@, c) == code_set(old(bitset)@).insert(code).contains(c) by {
                if c < MAX_KEY && c / 64 == code / 64 {
                    lemma_or_bit(old(bitset)@[i as int], b, (c % 64) as u64);
                }
            }
            assert(code_set(bitset@) =~= code_set(old(bitset)@).insert(code));
            assert(bitset@ =~= with_bit(old(bitset)@, code));
        }
    }
}

/// Unmarks `code` in `bitset`; codes from `MAX_KEY` on are ignored.
pub fn bitset_clear(bitset: &mut [u64; BITSET_LEN], code: u16)
    ensures
        final(bitset)@ == without_bit(old(bitset)@, code),
        forall|c: u16| #[trigger] bit_set(final(bitset)@, c) == (bit_set(old(bitset)@, c) && c != code),
        code < MAX_KEY ==> code_set(final(bitset)@) == code_set(old(bitset)@).remove(code),
{
    if code < MAX_KEY {
        let i = (code / 64) as usize;
        let b = (code % 64) as u64;
        bitset[i] = bitset[i] & !(1u64 << b);
        proof {
            assert forall|c: u16| bit_set(bitset@, c) == code_set(old(bitset)@).remove(code).contains(c) by {
                if c < MAX_KEY && c / 64 == code / 64 {
                    lemma_clear_bit(old(bitset)@[i as int], b, (c % 64) as u64);
                }
            }
            assert(code_set(bitset@) =~= code_set(old(bitset)@).remove(code));
            assert(bitset@ =~= without_bit(old(bitset)@, code));
        }
    }
}


/// The pressed set after a key event: an unmapped key changes nothing, a press
/// of a mapped key adds it, a release of a mapped key removes it.
pub open spec fn pressed_after(mapped: Set<u16>, pressed: Set<u16>, code: u16, is_press: bool) -> Set<u16> {
    if !mapped.contains(code) {
        pressed
    } else if is_press {
        pressed.insert(code)
    } else {
        pressed.remove(code)
    }
}

/// The held keys of a mapper: which mapped keys are pressed, how many, and
/// whether the mouse button is down.
#[derive(Clone, Copy)]
struct HeldKeys {
    /// Which mapped keys are currently pressed (bitset).
    pressed: [u64; BITSET_LEN],
    /// Number of mapped keys currently pressed.
    pressed_count: u32,
    mouse_button_state: bool,
}

/// Manages the state machine for mapping keyboard keys to the mouse button.
/// Reference counting: the mouse button stays pressed until all mapped keys
/// are released.
pub struct KeyMapper {
    /// Which key codes are mapped (bitset).
    mapped: [u64; BITSET_LEN],
    /// The held keys; replaced as a whole on each change.
    held: HeldKeys,
    /// The key codes the mapper was built from.
    mapped_list: Vec<u16>,
}

impl KeyMapper {
    /// The key codes that drive the mouse button.
    pub closed spec fn mapped_keys(&self) -> Set<u16> {
        code_set(self.mapped@)
    }

    /// The mapped keys that are currently held.
    pub closed spec fn pressed_keys(&self) -> Set<u16> {
        code_set(self.held.pressed@)
    }

    /// Whether the mouse button is currently held.
    pub closed spec fn mouse_button_pressed(&self) -> bool {
        self.held.mouse_button_state
    }

    /// Well-formedness: the pressed keys are mapped keys, the counter counts
    /// them, the button is held exactly while one of them is, and every
    /// mapped key occurs in the list of keys the mapper was built from.
    #[verifier::type_invariant]
    spec fn wf(self) -> bool {
        &&& code_set(self.held.pressed@).subset_of(code_set(self.mapped@))
        &&& self.held.pressed_count == code_set(self.held.pressed@).len()
        &&& self.held.mouse_button_state == (self.held.pressed_count > 0)
        &&& forall|c: u16| #[trigger] code_set(self.mapped@).contains(c) ==> self.mapped_list@.contains(c)
    }

    /// What the invariant gives: the button is held exactly while a mapped
    /// key is held.
    proof fn lemma_invariant_consequences(self)
        requires
            self.wf(),
        ensures
            self.mouse_button_pressed() <==> !self.pressed_keys().is_empty(),
            self.pressed_keys().subset_of(self.mapped_keys()),
            self.pressed_keys().finite(),
            self.held.pressed_count < MAX_KEY + 1,
    {
        lemma_code_set_bounded(self.held.pressed@);
        lemma_code_set_bounded(self.mapped@);
        vstd::set_lib::lemma_len_subset(self.pressed_keys(), self.mapped_keys());
        if self.pressed_keys().len() == 0 {
            vstd::set_lib::lemma_set_empty_equivalency_len(self.pressed_keys());
        }
        if !self.pressed_keys().is_empty() {
            let k = self.pressed_keys().choose();
            assert(self.pressed_keys().contains(k));
        }
    }

    /// Builds a mapper for the given key codes with no key held. Codes from
    /// `MAX_KEY` on cannot be held in the bitsets and are left unmapped.
    pub fn new(mapped_keys: HashSet<u16>) -> (mapper: Self)
        ensures
            mapper.mapped_keys() == mapped_keys@.filter(|c: u16| c < MAX_KEY),
            mapper.pressed_keys() == Set::<u16>::empty(),
            !mapper.mouse_button_pressed(),
    {
        let mut mapped = [0u64; BITSET_LEN];
        let mut mapped_list: Vec<u16> = Vec::new();
        proof {
            lemma_zero_bitset(mapped@);
        }
        for kc in it: mapped_keys.iter()
            invariant
                it.seq().unref().to_set() == mapped_keys@,
                mapped_list@ == it.seq().unref().take(it.index()),
                code_set(mapped@) == mapped_list@.to_set().filter(|c: u16| c < MAX_KEY),
                it.index() == it.seq().len() ==> mapped_list@.to_set() == mapped_keys@,
        {
            let code: u16 = *kc;
            let ghost before = mapped_list@;
            mapped_list.push(code);
            bitset_set(&mut mapped, code);
            proof {
                assert forall|x: u16| #[trigger] mapped_list@.contains(x) <==> before.contains(x) || x == code by {
                    if before.contains(x) {
                        let j = choose|j: int| 0 <= j < before.len() && before[j] == x;
                        assert(mapped_list@[j] == x);
                    }
                    if x == code {
                        assert(mapped_list@[before.len() as int] == code);
                    }
                }
                assert(mapped_list@.to_set() =~= before.to_set().insert(code));
                assert(code_set(mapped@) =~= mapped_list@.to_set().filter(|c: u16| c < MAX_KEY));
                assert(it.seq().unref().take(it.index() + 1) =~= mapped_list@);
                assert(it.seq().unref().take(it.seq().len() as int) =~= it.seq().unref());
            }
        }
        let held = HeldKeys { pressed: [0u64; BITSET_LEN], pressed_count: 0, mouse_button_state: false };
        proof {
            lemma_zero_bitset(held.pressed@);
            assert(code_set(mapped@) =~= mapped_keys@.filter(|c: u16| c < MAX_KEY));
        }
        KeyMapper { mapped, held, mapped_list }
    }

    /// Returns true if this key code is one of the mapped keys.
    pub fn is_mapped(&self, key_code: u16) -> (r: bool)
        ensures
            r == self.mapped_keys().contains(key_code),
    {
        key_code < MAX_KEY && bitset_get(&self.mapped, key_code)
    }

    /// Processes a key event and returns true if the mouse button state
    /// changed. Unmapped keys are ignored; a press adds the key to the held
    /// keys, a release removes it, and the button is held exactly while some
    /// mapped key is held.
    pub fn process_key_event(&mut self, key_code: u16, is_press: bool) -> (state_changed: bool)
        ensures
            final(self).mapped_keys() == old(self).mapped_keys(),
            final(self).pressed_keys() == pressed_after(
                old(self).mapped_keys(),
                old(self).pressed_keys(),
                key_code,
                is_press,
            ),
            final(self).mouse_button_pressed() == !final(self).pressed_keys().is_empty(),
            final(self).pressed_keys().subset_of(final(self).mapped_keys()),
            state_changed == (final(self).mouse_button_pressed() != old(self).mouse_button_pressed()),
    {
        proof {
            use_type_invariant(&*self);
            self.lemma_invariant_consequences();
        }
        if key_code >= MAX_KEY || !bitset_get(&self.mapped, key_code) {
            return false;
        }
        let mut held = self.held;
        let was_pressed = bitset_get(&held.pressed, key_code);
        let mut state_changed = false;
        if is_press {
            if !was_pressed {
                bitset_set(&mut held.pressed, key_code);
                held.pressed_count = held.pressed_count.saturating_add(1);
                if !held.mouse_button_state {
                    held.mouse_button_state = true;
                    state_changed = true;
                }
            }
        } else {
            if was_pressed {
                bitset_clear(&mut held.pressed, key_code);
                held.pressed_count = held.pressed_count.saturating_sub(1);
                if held.pressed_count == 0 && held.mouse_button_state {
                    held.mouse_button_state = false;
                    state_changed = true;
                }
            }
        }
        proof {
            lemma_code_set_bounded(held.pressed@);
            if code_set(held.pressed@).len() == 0 {
                vstd::set_lib::lemma_set_empty_equivalency_len(code_set(held.pressed@));
            }
            if !code_set(held.pressed@).is_empty() {
                let k = code_set(held.pressed@).choose();
                assert(code_set(held.pressed@).contains(k));
            }
        }
        self.held = held;
        state_changed
    }

    /// Whether the mouse button is currently held: exactly when some mapped
    /// key is held.
    pub fn get_mouse_button_state(&self) -> (r: bool)
        ensures
            r == self.mouse_button_pressed(),
            r == !self.pressed_keys().is_empty(),
            self.pressed_keys().subset_of(self.mapped_keys()),
    {
        proof {
            use_type_invariant(self);
            self.lemma_invariant_consequences();
        }
        self.held.mouse_button_state
    }

    /// The mapped keys that are currently held.
    pub fn get_active_keys(&self) -> (active: HashSet<u16>)
        ensures
            active@ == self.pressed_keys(),
            active@.subset_of(self.mapped_keys()),
    {
        proof {
            use_type_invariant(self);
        }
        let mut active: HashSet<u16> = HashSet::new();
        let n = self.mapped_list.len();
        for i in 0..n
            invariant
                n == self.mapped_list@.len(),
                active@ == self.mapped_list@.take(i as int).to_set().filter(
                    |c: u16| self.pressed_keys().contains(c),
                ),
        {
            let code = self.mapped_list[i];
            if bitset_get(&self.held.pressed, code) {
                active.insert(code);
            }
            proof {
                assert(self.mapped_list@.take(i + 1) =~= self.mapped_list@.take(i as int).push(code));
                assert forall|x: u16| #[trigger] self.mapped_list@.take(i + 1).contains(x)
                    <==> self.mapped_list@.take(i as int).contains(x) || x == code by {
                    let t = self.mapped_list@.take(i as int);
                    if t.contains(x) {
                        let j = choose|j: int| 0 <= j < t.len() && t[j] == x;
                        assert(self.mapped_list@.take(i + 1)[j] == x);
                    }
                    if x == code {
                        assert(self.mapped_list@.take(i + 1)[i as int] == code);
                    }
                }
                assert(active@ =~= self.mapped_list@.take(i + 1).to_set().filter(
                    |c: u16| self.pressed_keys().contains(c),
                ));
            }
        }
        proof {
            assert(self.mapped_list@.take(n as int) =~= self.mapped_list@);
            assert forall|c: u16| #[trigger] self.pressed_keys().contains(c) implies self.mapped_list@.contains(c) by {
                assert(self.mapped_keys().contains(c));
            }
            assert(active@ =~= self.pressed_keys());
        }
        active
    }

    /// Releases every held key: afterwards no key is held and the mouse
    /// button is up. The mapped keys are kept.
    pub fn reset(&mut self)
        ensures
            final(self).mapped_keys() == old(self).mapped_keys(),
            final(self).pressed_keys() == Set::<u16>::empty(),
            !final(self).mouse_button_pressed(),
    {
        let held = HeldKeys { pressed: [0u64; BITSET_LEN], pressed_count: 0, mouse_button_state: false };
        proof {
            use_type_invariant(&*self);
            lemma_zero_bitset(held.pressed@);
        }
        self.held = held;
    }
}

/// A key event changes the mouse button exactly on the first press of a
/// mapped key while nothing is held, and on the release of the last held key.
pub proof fn lemma_state_change(mapped: Set<u16>, pressed: Set<u16>, code: u16, is_press: bool)
    requires
        pressed.subset_of(mapped),
    ensures
        (pressed.is_empty() != pressed_after(mapped, pressed, code, is_press).is_empty()) <==> (
        mapped.contains(code) && (if is_press {
            pressed.is_empty()
        } else {
            pressed == Set::<u16>::empty().insert(code)
        })),
{
    if mapped.contains(code) {
        if is_press {
            assert(pressed.insert(code).contains(code));
        } else {
            if pressed == Set::<u16>::empty().insert(code) {
                assert(pressed.remove(code) =~= Set::<u16>::empty());
            }
            if !pressed.is_empty() && pressed.remove(code).is_empty() {
                assert(pressed =~= Set::<u16>::empty().insert(code)) by {
                    assert forall|x: u16| pressed.contains(x) implies x == code by {
                        if x != code {
                            assert(pressed.remove(code).contains(x));
                        }
                    }
                    let w = choose|x: u16| pressed.contains(x);
                    assert(pressed.contains(w));
                }
            }
        }
    }
}

/// Releasing one key while another mapped key is still held never releases
/// the mouse button.
pub proof fn lemma_button_held_while_other_key_held(
    mapped: Set<u16>,
    pressed: Set<u16>,
    code: u16,
    other: u16,
)
    requires
        pressed.contains(other),
        other != code,
    ensures
        pressed_after(mapped, pressed, code, false).contains(other),
        !pressed_after(mapped, pressed, code, false).is_empty(),
{
    assert(pressed_after(mapped, pressed, code, false).contains(other));
}

/// Pressing a key that is already held changes nothing.
pub proof fn lemma_repeated_press_is_noop(mapped: Set<u16>, pressed: Set<u16>, code: u16)
    requires
        pressed.contains(code),
    ensures
        pressed_after(mapped, pressed, code, true) == pressed,
{
    if mapped.contains(code) {
        assert(pressed.insert(code) =~= pressed);
    }
}

/// Releasing a key that is not held changes nothing.
pub proof fn lemma_release_of_unheld_key_is_noop(mapped: Set<u16>, pressed: Set<u16>, code: u16)
    requires
        !pressed.contains(code),
    ensures
        pressed_after(mapped, pressed, code, false) == pressed,
{
    if mapped.contains(code) {
        assert(pressed.remove(code) =~= pressed);
    }
}

/// A press followed by a release of a key that was not held restores the
/// held keys.
pub proof fn lemma_press_then_release_restores(mapped: Set<u16>, pressed: Set<u16>, code: u16)
    requires
        !pressed.contains(code),
    ensures
        pressed_after(mapped, pressed_after(mapped, pressed, code, true), code, false) == pressed,
{
    if mapped.contains(code) {
        assert(pressed.insert(code).remove(code) =~= pressed);
    }
}

/// The order in which two keys are released does not matter.
pub proof fn lemma_release_order_irrelevant(mapped: Set<u16>, pressed: Set<u16>, a: u16, b: u16)
    ensures
        pressed_after(mapped, pressed_after(mapped, pressed, a, false), b, false)
            == pressed_after(mapped, pressed_after(mapped, pressed, b, false), a, false),
{
    assert(pressed_after(mapped, pressed_after(mapped, pressed, a, false), b, false)
        =~= pressed_after(mapped, pressed_after(mapped, pressed, b, false), a, false));
}

/// Events on keys that are not mapped never change the held keys.
pub proof fn lemma_unmapped_key_ignored(mapped: Set<u16>, pressed: Set<u16>, code: u16, is_press: bool)
    requires
        !mapped.contains(code),
    ensures
        pressed_after(mapped, pressed, code, is_press) == pressed,
{
}

/// A call that changes the held keys of a mapper.
pub enum MapperCall {
    /// `process_key_event(code, true)`.
    Press(u16),
    /// `process_key_event(code, false)`.
    Release(u16),
    /// `reset()`.
    Reset,
}

/// The held keys after one call, as `process_key_event` and `reset` state it.
pub open spec fn held_after_call(mapped: Set<u16>, held: Set<u16>, call: MapperCall) -> Set<u16> {
    match call {
        MapperCall::Press(code) => pressed_after(mapped, held, code, true),
        MapperCall::Release(code) => pressed_after(mapped, held, code, false),
        MapperCall::Reset => Set::<u16>::empty(),
    }
}

/// The held keys of a new mapper after a sequence of calls.
pub open spec fn held_after_calls(mapped: Set<u16>, calls: Seq<MapperCall>) -> Set<u16>
    decreases calls.len(),
{
    if calls.len() == 0 {
        Set::<u16>::empty()
    } else {
        held_after_call(mapped, held_after_calls(mapped, calls.drop_last()), calls.last())
    }
}

/// Key `k` is mapped, was pressed at some call, and was neither released nor
/// reset after that call.
pub open spec fn pressed_since_last_release(mapped: Set<u16>, calls: Seq<MapperCall>, k: u16) -> bool {
    &&& mapped.contains(k)
    &&& exists|i: int|
        0 <= i < calls.len() && #[trigger] calls[i] == MapperCall::Press(k) && forall|j: int|
            i < j < calls.len() ==> #[trigger] calls[j] != MapperCall::Release(k) && calls[j]
                != MapperCall::Reset
}

/// The held keys after any sequence of calls on a new mapper are exactly the
/// mapped keys whose last press came after their last release and after the
/// last reset.
pub proof fn lemma_held_keys_follow_history(mapped: Set<u16>, calls: Seq<MapperCall>)
    ensures
        forall|k: u16| #[trigger] held_after_calls(mapped, calls).contains(k)
            <==> pressed_since_last_release(mapped, calls, k),
    decreases calls.len(),
{
    if calls.len() > 0 {
        let prev = calls.drop_last();
        let n = calls.len() - 1;
        let last = calls.last();
        lemma_held_keys_follow_history(mapped, prev);
        assert forall|k: u16| #[trigger] held_after_calls(mapped, calls).contains(k)
            <==> pressed_since_last_release(mapped, calls, k) by {
            if held_after_calls(mapped, calls).contains(k) {
                if last == MapperCall::Press(k) && mapped.contains(k) {
                    assert(calls[n] == MapperCall::Press(k));
                } else {
                    assert(held_after_calls(mapped, prev).contains(k));
                    assert(pressed_since_last_release(mapped, prev, k));
                    let i = choose|i: int|
                        0 <= i < prev.len() && #[trigger] prev[i] == MapperCall::Press(k) && forall|
                            j: int,
                        |
                            i < j < prev.len() ==> #[trigger] prev[j] != MapperCall::Release(k)
                                && prev[j] != MapperCall::Reset;
                    assert(calls[i] == MapperCall::Press(k));
                    assert forall|j: int| i < j < calls.len() implies #[trigger] calls[j]
                        != MapperCall::Release(k) && calls[j] != MapperCall::Reset by {
                        if j < n {
                            assert(calls[j] == prev[j]);
                        }
                    }
                }
            }
            if pressed_since_last_release(mapped, calls, k) {
                let i = choose|i: int|
                    0 <= i < calls.len() && #[trigger] calls[i] == MapperCall::Press(k) && forall|
                        j: int,
                    |
                        i < j < calls.len() ==> #[trigger] calls[j] != MapperCall::Release(k)
                            && calls[j] != MapperCall::Reset;
                if i < n {
                    assert(calls[n] != MapperCall::Release(k) && calls[n] != MapperCall::Reset);
                    assert(prev[i] == MapperCall::Press(k));
                    assert forall|j: int| i < j < prev.len() implies #[trigger] prev[j]
                        != MapperCall::Release(k) && prev[j] != MapperCall::Reset by {
                        assert(calls[j] == prev[j]);
                    }
                    assert(pressed_since_last_release(mapped, prev, k));
                    assert(held_after_calls(mapped, prev).contains(k));
                }
            }
        }
    }
}

} // verus!
