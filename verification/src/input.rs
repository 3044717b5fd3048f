//! The input state machine: raw down / up samples of keys and pointer
//! buttons become pressed / held / released state, one update at a time.

use vstd::prelude::*;

verus! {

/// The number of keys.
pub const KEYS: usize = 256;

/// The number of pointer buttons.
pub const BUTTONS: usize = 5;

/// The edge state of one key or pointer button.
#[derive(Clone, Copy, Debug, PartialEq, Eq, Structural)]
pub struct KeyState {
    pub held: bool,
    pub released: bool,
    pub pressed: bool,
}

impl KeyState {
    /// The state with the three given flags.
    pub fn new(held: bool, released: bool, pressed: bool) -> (state: KeyState)
        ensures
            state == (KeyState { held, released, pressed }),
    {
        KeyState { held, released, pressed }
    }

    /// The state after one update that saw the raw sample go from
    /// `old_state` to `new_state`.
    ///
    /// `pressed` and `released` are pulses: they are cleared first and then
    /// set again only on a change of the sample. The flag named `released`
    /// fires when the sample goes down, `pressed` fires when it comes up and
    /// `held` was not yet set, and `held`, once set, stays set.
    pub open spec fn step(self, old_state: bool, new_state: bool) -> KeyState {
        if new_state == old_state {
            KeyState { held: self.held, released: false, pressed: false }
        } else if new_state {
            KeyState { held: true, released: true, pressed: false }
        } else {
            KeyState { held: true, released: false, pressed: !self.held }
        }
    }

    /// Computes [`KeyState::step`].
    pub fn advance(self, old_state: bool, new_state: bool) -> (next: KeyState)
        ensures
            next == self.step(old_state, new_state),
    {
        if new_state == old_state {
            KeyState { held: self.held, released: false, pressed: false }
        } else if new_state {
            KeyState { held: true, released: true, pressed: false }
        } else {
            KeyState { held: true, released: false, pressed: !self.held }
        }
    }
}

/// A pulse lasts one update: once the sample stops changing, `pressed` and
/// `released` are clear again, whatever came before. And `held`, once
/// set, stays set through every step.
pub proof fn lemma_pulses_last_one_update(state: KeyState, old_state: bool, new_state: bool)
    ensures
        !state.step(old_state, new_state).step(new_state, new_state).pressed,
        !state.step(old_state, new_state).step(new_state, new_state).released,
        state.step(old_state, new_state).step(new_state, new_state).held == state.step(
            old_state,
            new_state,
        ).held,
        state.held ==> state.step(old_state, new_state).held,
{
}

/// One raw record of the input source.
#[derive(Clone, Copy, Debug, PartialEq, Eq, Structural)]
pub enum InputEvent {
    /// The window gained or lost the focus.
    Focus(bool),
    /// A key went down or came up.
    Key { index: u8, down: bool },
    /// The display buffer now has this size.
    Resize { width: u16, height: u16 },
    /// The pointer moved to this cell.
    MouseMoved { x: i32, y: i32 },
    /// The pointer buttons that are down, one bit each, lowest first.
    MouseButtons(u32),
}

/// Whether bit `button` of `mask` is set.
pub open spec fn button_down(mask: u32, button: u32) -> bool {
    mask & (1u32 << button) != 0
}

/// What the input state machine holds, as plain mathematical values.
pub struct InputView {
    pub keys: Seq<KeyState>,
    pub mouse: Seq<KeyState>,
    pub keys_old: Seq<bool>,
    pub keys_new: Seq<bool>,
    pub mouse_old: Seq<bool>,
    pub mouse_new: Seq<bool>,
    pub mouse_x: int,
    pub mouse_y: int,
    pub focused: bool,
}

impl InputView {
    /// There is one entry per key and per button.
    pub open spec fn wf(self) -> bool {
        &&& self.keys.len() == KEYS
        &&& self.keys_old.len() == KEYS
        &&& self.keys_new.len() == KEYS
        &&& self.mouse.len() == BUTTONS
        &&& self.mouse_old.len() == BUTTONS
        &&& self.mouse_new.len() == BUTTONS
    }

    /// The state before any input: nothing down, nothing held.
    pub open spec fn idle() -> InputView {
        InputView {
            keys: Seq::new(KEYS as nat, |i: int| KeyState { held: false, released: false, pressed: false }),
            mouse: Seq::new(
                BUTTONS as nat,
                |i: int| KeyState { held: false, released: false, pressed: false },
            ),
            keys_old: Seq::new(KEYS as nat, |i: int| false),
            keys_new: Seq::new(KEYS as nat, |i: int| false),
            mouse_old: Seq::new(BUTTONS as nat, |i: int| false),
            mouse_new: Seq::new(BUTTONS as nat, |i: int| false),
            mouse_x: 0,
            mouse_y: 0,
            focused: false,
        }
    }

    /// The state after one raw record: it changes the samples, the pointer
    /// position or the focus, and never the edge state.
    pub open spec fn record(self, event: InputEvent) -> InputView {
        match event {
            InputEvent::Focus(focused) => InputView { focused, ..self },
            InputEvent::Key { index, down } => InputView {
                keys_new: self.keys_new.update(index as int, down),
                ..self
            },
            InputEvent::Resize { width, height } => self,
            InputEvent::MouseMoved { x, y } => InputView { mouse_x: x as int, mouse_y: y as int, ..self },
            InputEvent::MouseButtons(mask) => InputView {
                mouse_new: Seq::new(BUTTONS as nat, |m: int| button_down(mask, m as u32)),
                ..self
            },
        }
    }

    /// The state after the first `n` records of `events`, in order.
    pub open spec fn record_all(self, events: Seq<InputEvent>, n: int) -> InputView
        decreases n,
    {
        if n <= 0 {
            self
        } else {
            self.record_all(events, n - 1).record(events[n - 1])
        }
    }

    /// The state after an update: every key and button takes one step from
    /// its previous sample to its current one, and the current samples
    /// become the previous ones.
    pub open spec fn settled(self) -> InputView {
        InputView {
            keys: Seq::new(
                KEYS as nat,
                |i: int| self.keys[i].step(self.keys_old[i], self.keys_new[i]),
            ),
            mouse: Seq::new(
                BUTTONS as nat,
                |i: int| self.mouse[i].step(self.mouse_old[i], self.mouse_new[i]),
            ),
            keys_old: self.keys_new,
            mouse_old: self.mouse_new,
            ..self
        }
    }
}

/// The input state machine.
pub struct InputState {
    keys: [KeyState; 256],
    mouse: [KeyState; 5],
    keys_old_state: [bool; 256],
    keys_new_state: [bool; 256],
    mouse_old_state: [bool; 5],
    mouse_new_state: [bool; 5],
    mouse_x: i32,
    mouse_y: i32,
    is_focused: bool,
}

impl View for InputState {
    type V = InputView;

    closed spec fn view(&self) -> InputView {
        InputView {
            keys: self.keys@,
            mouse: self.mouse@,
            keys_old: self.keys_old_state@,
            keys_new: self.keys_new_state@,
            mouse_old: self.mouse_old_state@,
            mouse_new: self.mouse_new_state@,
            mouse_x: self.mouse_x as int,
            mouse_y: self.mouse_y as int,
            focused: self.is_focused,
        }
    }
}

impl InputState {
    /// The state before any input.
    pub fn new() -> (state: InputState)
        ensures
            state@ == InputView::idle(),
    {
        let state = InputState {
            keys: [KeyState { held: false, released: false, pressed: false };256],
            mouse: [KeyState { held: false, released: false, pressed: false };5],
            keys_old_state: [false;256],
            keys_new_state: [false;256],
            mouse_old_state: [false;5],
            mouse_new_state: [false;5],
            mouse_x: 0,
            mouse_y: 0,
            is_focused: false,
        };
        assert(state@.keys =~= InputView::idle().keys);
        assert(state@.mouse =~= InputView::idle().mouse);
        assert(state@.keys_old =~= InputView::idle().keys_old);
        assert(state@.keys_new =~= InputView::idle().keys_new);
        assert(state@.mouse_old =~= InputView::idle().mouse_old);
        assert(state@.mouse_new =~= InputView::idle().mouse_new);
        state
    }

    /// Takes in one raw record.
    pub fn record(&mut self, event: InputEvent)
        ensures
            final(self)@ == old(self)@.record(event),
            final(self)@.wf(),
    {
        match event {
            InputEvent::Focus(focused) => {
                self.is_focused = focused;
            },
            InputEvent::Key { index, down } => {
                self.keys_new_state[index as usize] = down;
            },
            InputEvent::Resize { width, height } => {},
            InputEvent::MouseMoved { x, y } => {
                self.mouse_x = x;
                self.mouse_y = y;
            },
            InputEvent::MouseButtons(mask) => {
                let mut m: u32 = 0;
                while m < 5
                    invariant
                        m <= 5,
                        self@ == (InputView { mouse_new: self@.mouse_new, ..old(self)@ }),
                        forall|k: int| 0 <= k < m ==> self@.mouse_new[k] == button_down(mask, k as u32),
                    decreases 5 - m,
                {
                    self.mouse_new_state[m as usize] = (mask & (1u32 << m)) != 0;
                    m = m + 1;
                }
                assert(self@.mouse_new =~= old(self)@.record(event).mouse_new);
            },
        }
    }

    /// Ends an update: every key and button takes its step.
    pub fn settle(&mut self)
        ensures
            final(self)@ == old(self)@.settled(),
            final(self)@.wf(),
    {
        let mut i: usize = 0;
        while i < 256
            invariant
                i <= 256,
                self@ == (InputView { keys: self@.keys, keys_old: self@.keys_old, ..old(self)@ }),
                forall|k: int|
                    0 <= k < i ==> self@.keys[k] == old(self)@.keys[k].step(
                        old(self)@.keys_old[k],
                        old(self)@.keys_new[k],
                    ) && self@.keys_old[k] == old(self)@.keys_new[k],
                forall|k: int|
                    i <= k < 256 ==> self@.keys[k] == old(self)@.keys[k] && self@.keys_old[k] == old(
                        self,
                    )@.keys_old[k],
            decreases 256 - i,
        {
            let next = self.keys[i].advance(self.keys_old_state[i], self.keys_new_state[i]);
            self.keys[i] = next;
            self.keys_old_state[i] = self.keys_new_state[i];
            i = i + 1;
        }
        let ghost mid = self@;
        let mut j: usize = 0;
        while j < 5
            invariant
                j <= 5,
                self@ == (InputView { mouse: self@.mouse, mouse_old: self@.mouse_old, ..mid }),
                forall|k: int|
                    0 <= k < j ==> self@.mouse[k] == mid.mouse[k].step(mid.mouse_old[k], mid.mouse_new[k])
                        && self@.mouse_old[k] == mid.mouse_new[k],
                forall|k: int|
                    j <= k < 5 ==> self@.mouse[k] == mid.mouse[k] && self@.mouse_old[k]
                        == mid.mouse_old[k],
            decreases 5 - j,
        {
            let next = self.mouse[j].advance(self.mouse_old_state[j], self.mouse_new_state[j]);
            self.mouse[j] = next;
            self.mouse_old_state[j] = self.mouse_new_state[j];
            j = j + 1;
        }
        assert(self@.keys =~= old(self)@.settled().keys);
        assert(self@.keys_old =~= old(self)@.settled().keys_old);
        assert(self@.mouse =~= old(self)@.settled().mouse);
        assert(self@.mouse_old =~= old(self)@.settled().mouse_old);
    }

    /// The edge state of key `key`.
    pub fn key(&self, key: usize) -> (state: KeyState)
        requires
            key < KEYS,
        ensures
            state == self@.keys[key as int],
    {
        self.keys[key]
    }

    /// The edge state of pointer button `button`.
    pub fn button(&self, button: usize) -> (state: KeyState)
        requires
            button < BUTTONS,
        ensures
            state == self@.mouse[button as int],
    {
        self.mouse[button]
    }

    /// The last pointer position, as `(x, y)`.
    pub fn pointer(&self) -> (at: (i32, i32))
        ensures
            at.0 == self@.mouse_x,
            at.1 == self@.mouse_y,
    {
        (self.mouse_x, self.mouse_y)
    }

    /// Whether the window has the focus. The state has an entry for every
    /// key and every button, which callers learn here.
    pub fn focused(&self) -> (focused: bool)
        ensures
            focused == self@.focused,
            self@.wf(),
    {
        self.is_focused
    }
}

} // verus!
