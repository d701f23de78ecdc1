use std::collections::HashMap;
use vstd::prelude::*;

verus! {

/// What is known of one key between two signals.
#[derive(Clone, Copy, PartialEq, Eq, Structural, Debug)]
pub enum KeyState {
    Neutral,
    JustPressed,
    Holding,
}

/// The two edges that the tracker reports.
#[derive(Clone, Copy, PartialEq, Eq, Structural, Debug)]
pub enum KeyEventType {
    KeyPressed,
    KeyReleased,
}

/// The state a key moves to on a "key down" signal.
pub open spec fn after_press(state: KeyState) -> KeyState {
    match state {
        KeyState::Neutral => KeyState::JustPressed,
        KeyState::JustPressed => KeyState::Holding,
        KeyState::Holding => KeyState::Holding,
    }
}

/// Mathematical content of a [`KeyboardControl`]: the recorded state of each
/// key that was seen, and the edges not yet handed out, oldest first.
pub struct KeyboardModel {
    pub states: Map<u32, KeyState>,
    pub events: Seq<(u32, KeyEventType)>,
}

impl KeyboardModel {
    /// A tracker that has seen no signal.
    pub open spec fn empty() -> KeyboardModel {
        KeyboardModel { states: Map::empty(), events: Seq::empty() }
    }

    /// The state of `key`; a key never seen is `Neutral`.
    pub open spec fn state_of(self, key: u32) -> KeyState {
        if self.states.contains_key(key) {
            self.states[key]
        } else {
            KeyState::Neutral
        }
    }

    /// The tracker after a "key down" signal for `key`: the key advances one
    /// state, and a "pressed" edge is queued only when it was `Neutral`.
    pub open spec fn press(self, key: u32) -> KeyboardModel {
        KeyboardModel {
            states: self.states.insert(key, after_press(self.state_of(key))),
            events: if self.state_of(key) == KeyState::Neutral {
                self.events.push((key, KeyEventType::KeyPressed))
            } else {
                self.events
            },
        }
    }

    /// The tracker after a "key up" signal for `key`: the key is `Neutral`
    /// again and a "released" edge is queued, whatever the state was.
    pub open spec fn release(self, key: u32) -> KeyboardModel {
        KeyboardModel {
            states: self.states.insert(key, KeyState::Neutral),
            events: self.events.push((key, KeyEventType::KeyReleased)),
        }
    }

    /// The tracker after its pending edges were taken.
    pub open spec fn drained(self) -> KeyboardModel {
        KeyboardModel { states: self.states, events: Seq::empty() }
    }
}

/// Edge-triggered tracking of key states, keyed by the key's code.
pub struct KeyboardControl {
    pub states: HashMap<u32, KeyState>,
    key_events: Vec<(u32, KeyEventType)>,
}

impl View for KeyboardControl {
    type V = KeyboardModel;

    closed spec fn view(&self) -> KeyboardModel {
        KeyboardModel { states: self.states@, events: self.key_events@ }
    }
}

impl KeyboardControl {
    pub fn new() -> (keyboard: KeyboardControl)
        ensures
            keyboard@ == KeyboardModel::empty(),
    {
        KeyboardControl { states: HashMap::new(), key_events: Vec::new() }
    }

    /// The recorded state of `key`.
    pub fn key_state(&self, key: u32) -> (state: KeyState)
        ensures
            state == self@.state_of(key),
    {
        broadcast use vstd::std_specs::hash::group_hash_axioms;

        match self.states.get(&key) {
            Some(state) => *state,
            None => KeyState::Neutral,
        }
    }

    /// Takes a raw "key down" signal.
    pub fn key_press_event(&mut self, key: u32)
        ensures
            final(self)@ == old(self)@.press(key),
    {
        broadcast use vstd::std_specs::hash::group_hash_axioms;

        let key_state = match self.key_state(key) {
            KeyState::Neutral => KeyState::JustPressed,
            KeyState::JustPressed => KeyState::Holding,
            KeyState::Holding => KeyState::Holding,
        };
        self.states.insert(key, key_state);
        if key_state == KeyState::JustPressed {
            self.key_events.push((key, KeyEventType::KeyPressed));
        }
    }

    /// Takes a raw "key up" signal.
    pub fn key_release_event(&mut self, key: u32)
        ensures
            final(self)@ == old(self)@.release(key),
    {
        broadcast use vstd::std_specs::hash::group_hash_axioms;

        self.states.insert(key, KeyState::Neutral);
        self.key_events.push((key, KeyEventType::KeyReleased));
    }

    /// Hands out the pending edges in the order in which they arose, and
    /// leaves none behind.
    pub fn poll_event(&mut self) -> (events: Vec<(u32, KeyEventType)>)
        ensures
            events@ == old(self)@.events,
            final(self)@ == old(self)@.drained(),
    {
        let mut events: Vec<(u32, KeyEventType)> = Vec::new();
        std::mem::swap(&mut events, &mut self.key_events);
        events
    }
}

/// Two "key down" signals in a row, from rest, leave the key `Holding` and
/// queue exactly one "pressed" edge; every other key is as it was.
pub proof fn lemma_press_twice(keyboard: KeyboardModel, key: u32)
    requires
        keyboard.state_of(key) == KeyState::Neutral,
    ensures
        keyboard.press(key).state_of(key) == KeyState::JustPressed,
        keyboard.press(key).press(key).state_of(key) == KeyState::Holding,
        keyboard.press(key).press(key).events == keyboard.events.push(
            (key, KeyEventType::KeyPressed),
        ),
        forall|other: u32|
            other != key ==> #[trigger] keyboard.press(key).press(key).state_of(other)
                == keyboard.state_of(other),
{
}

/// A "key down" signal for a key that is held changes nothing at all.
pub proof fn lemma_press_while_holding(keyboard: KeyboardModel, key: u32)
    requires
        keyboard.state_of(key) == KeyState::Holding,
    ensures
        keyboard.press(key) == keyboard,
{
    assert(keyboard.press(key).states =~= keyboard.states);
}

/// A "key up" signal queues exactly one "released" edge and leaves the key
/// `Neutral`, from every state; every other key is as it was.
pub proof fn lemma_release_resets(keyboard: KeyboardModel, key: u32)
    ensures
        keyboard.release(key).state_of(key) == KeyState::Neutral,
        keyboard.release(key).events == keyboard.events.push((key, KeyEventType::KeyReleased)),
        forall|other: u32|
            other != key ==> #[trigger] keyboard.release(key).state_of(other) == keyboard.state_of(
                other,
            ),
{
}

} // verus!
