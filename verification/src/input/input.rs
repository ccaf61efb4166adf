use vstd::prelude::*;

use super::types::{EventKeyboard, InputEventType, KeyCode, MouseButton};
use crate::utils::vec_set::{SameAs, VecSet};

verus! {

impl SameAs for KeyCode {
    fn same_as(&self, other: &Self) -> (r: bool) {
        *self == *other
    }
}

impl SameAs for MouseButton {
    fn same_as(&self, other: &Self) -> (r: bool) {
        *self == *other
    }
}

/// Told of keyboard events.
trait KeyboardListener {
    fn call(&self, event: &EventKeyboard);
}

struct ClosureKeyboardListener<F: Fn(&EventKeyboard)> {
    f: F,
}

impl<F: Fn(&EventKeyboard)> ClosureKeyboardListener<F> {
    #[verifier::type_invariant]
    closed spec fn callable(self) -> bool {
        forall|e: &EventKeyboard| call_requires(self.f, (e,))
    }
}

impl<F: Fn(&EventKeyboard)> KeyboardListener for ClosureKeyboardListener<F> {
    fn call(&self, event: &EventKeyboard) {
        proof {
            use_type_invariant(self);
        }
        (self.f)(event);
    }
}

struct KeyboardSlot {
    event_type: InputEventType,
    listener: Box<dyn KeyboardListener>,
}

impl KeyboardSlot {
    fn new<F: Fn(&EventKeyboard) + Send + Sync + 'static>(event_type: InputEventType, cb: F) -> (r: Self)
        requires
            forall|e: &EventKeyboard| call_requires(cb, (e,)),
        ensures
            r.event_type == event_type,
    {
        let l: Box<dyn KeyboardListener> = Box::new(ClosureKeyboardListener { f: cb });
        KeyboardSlot { event_type, listener: l }
    }
}

spec fn types_of(s: Seq<KeyboardSlot>) -> Seq<InputEventType> {
    s.map_values(|x: KeyboardSlot| x.event_type)
}

proof fn lemma_filter_push(s: Seq<InputEventType>, x: InputEventType, pred: spec_fn(InputEventType) -> bool)
    ensures
        s.push(x).filter(pred) == if pred(x) {
            s.filter(pred).push(x)
        } else {
            s.filter(pred)
        },
{
    reveal(Seq::filter);
    assert(s.push(x).drop_last() =~= s);
}

/// The abstract state of an [`Input`].
pub struct InputView {
    /// The event type of each keyboard listener, in the order they were added.
    pub keyboard_listeners: Seq<InputEventType>,
    /// The keys that went down this frame.
    pub keys_down: Set<KeyCode>,
    /// The keys held down.
    pub keys_pressed: Set<KeyCode>,
    /// The keys released this frame.
    pub keys_up: Set<KeyCode>,
    /// The mouse buttons that went down this frame.
    pub buttons_down: Set<MouseButton>,
    /// The mouse buttons held down.
    pub buttons_pressed: Set<MouseButton>,
}

/// Whether a listener's event type differs from `t`.
pub open spec fn other_type(t: InputEventType) -> spec_fn(InputEventType) -> bool {
    |e: InputEventType| e != t
}

/// The state after key `k` went down: it counts as down this frame unless
/// it was already held.
pub open spec fn spec_key_down(v: InputView, k: KeyCode) -> InputView {
    InputView {
        keys_down: if v.keys_pressed.contains(k) {
            v.keys_down
        } else {
            v.keys_down.insert(k)
        },
        keys_pressed: v.keys_pressed.insert(k),
        ..v
    }
}

/// The state after key `k` was released.
pub open spec fn spec_key_up(v: InputView, k: KeyCode) -> InputView {
    InputView { keys_pressed: v.keys_pressed.remove(k), keys_up: v.keys_up.insert(k), ..v }
}

/// The state at the end of a frame: what went down or up this frame is
/// forgotten; what is held stays held.
pub open spec fn spec_frame_end(v: InputView) -> InputView {
    InputView { keys_down: Set::empty(), keys_up: Set::empty(), buttons_down: Set::empty(), ..v }
}

/// Keyboard and mouse-button state, frame by frame, and the keyboard
/// listeners.
pub struct Input {
    keyboard_listeners: Vec<KeyboardSlot>,
    keys_down: VecSet<KeyCode>,
    keys_pressed: VecSet<KeyCode>,
    keys_up: VecSet<KeyCode>,
    mouse_buttons_down: VecSet<MouseButton>,
    mouse_buttons_pressed: VecSet<MouseButton>,
}

impl View for Input {
    type V = InputView;

    closed spec fn view(&self) -> InputView {
        InputView {
            keyboard_listeners: types_of(self.keyboard_listeners@),
            keys_down: self.keys_down@,
            keys_pressed: self.keys_pressed@,
            keys_up: self.keys_up@,
            buttons_down: self.mouse_buttons_down@,
            buttons_pressed: self.mouse_buttons_pressed@,
        }
    }
}

impl Input {
    /// Well-formedness of the key and button sets.
    pub closed spec fn wf(&self) -> bool {
        &&& self.keys_down.wf()
        &&& self.keys_pressed.wf()
        &&& self.keys_up.wf()
        &&& self.mouse_buttons_down.wf()
        &&& self.mouse_buttons_pressed.wf()
    }

    pub fn new() -> (r: Self)
        ensures
            r.wf(),
            r@ == (InputView {
                keyboard_listeners: Seq::empty(),
                keys_down: Set::empty(),
                keys_pressed: Set::empty(),
                keys_up: Set::empty(),
                buttons_down: Set::empty(),
                buttons_pressed: Set::empty(),
            }),
    {
        let r = Input {
            keyboard_listeners: Vec::new(),
            keys_down: VecSet::new(),
            keys_pressed: VecSet::new(),
            keys_up: VecSet::new(),
            mouse_buttons_down: VecSet::new(),
            mouse_buttons_pressed: VecSet::new(),
        };
        assert(r@.keyboard_listeners =~= Seq::<InputEventType>::empty());
        r
    }

    /// Adds a listener for keyboard events of type `event_type`.
    pub fn on_keyboard<F: Fn(&EventKeyboard) + Send + Sync + 'static>(&mut self, event_type: InputEventType, cb: F)
        requires
            forall|e: &EventKeyboard| call_requires(cb, (e,)),
        ensures
            final(self)@ == (InputView {
                keyboard_listeners: old(self)@.keyboard_listeners.push(event_type),
                ..old(self)@
            }),
            final(self).wf() == old(self).wf(),
    {
        let slot = KeyboardSlot::new(event_type, cb);
        self.keyboard_listeners.push(slot);
        assert(self@.keyboard_listeners =~= old(self)@.keyboard_listeners.push(event_type));
    }

    /// Removes every keyboard listener for events of type `event_type`.
    pub fn off_keyboard(&mut self, event_type: &InputEventType)
        ensures
            final(self)@ == (InputView {
                keyboard_listeners: old(self)@.keyboard_listeners.filter(other_type(*event_type)),
                ..old(self)@
            }),
            final(self).wf() == old(self).wf(),
    {
        let ghost orig = self@.keyboard_listeners;
        let ghost pred = other_type(*event_type);
        let mut all: Vec<KeyboardSlot> = Vec::new();
        std::mem::swap(&mut all, &mut self.keyboard_listeners);
        let total = all.len();
        let ghost v0 = self@;
        let mut i: usize = 0;
        proof {
            reveal(Seq::filter);
        }
        assert(orig.take(0) =~= Seq::<InputEventType>::empty());
        assert(types_of(self.keyboard_listeners@) =~= Seq::<InputEventType>::empty());
        assert(types_of(all@) =~= orig.skip(0));
        while all.len() > 0
            invariant
                i + all@.len() == orig.len(),
                orig.len() == total,
                types_of(all@) == orig.skip(i as int),
                types_of(self.keyboard_listeners@) == orig.take(i as int).filter(pred),
                pred == other_type(*event_type),
                self@ == (InputView { keyboard_listeners: self@.keyboard_listeners, ..v0 }),
                v0 == (InputView { keyboard_listeners: v0.keyboard_listeners, ..old(self)@ }),
                self.wf() == old(self).wf(),
            decreases all@.len(),
        {
            let ghost before = all@;
            let ghost kept = self.keyboard_listeners@;
            let slot = all.remove(0);
            assert(slot.event_type == orig[i as int]) by {
                assert(types_of(before)[0] == orig.skip(i as int)[0]);
            }
            assert(types_of(all@) =~= orig.skip(i + 1)) by {
                assert forall|j: int| 0 <= j < all@.len() implies types_of(all@)[j] == orig.skip(i + 1)[j] by {
                    assert(all@[j] == before[j + 1]);
                    assert(types_of(before)[j + 1] == orig.skip(i as int)[j + 1]);
                }
            }
            proof {
                lemma_filter_push(orig.take(i as int), slot.event_type, pred);
                assert(orig.take(i + 1) =~= orig.take(i as int).push(slot.event_type));
            }
            if slot.event_type != *event_type {
                let ghost t = slot.event_type;
                self.keyboard_listeners.push(slot);
                assert(types_of(self.keyboard_listeners@) =~= types_of(kept).push(t));
            }
            i = i + 1;
        }
        assert(orig.take(i as int) =~= orig);
    }

    /// Calls the keyboard listeners of `event`'s type, in the order they were
    /// added.
    fn notify_keyboard(&self, event: &EventKeyboard) {
        let mut i: usize = 0;
        while i < self.keyboard_listeners.len()
            invariant
                i <= self.keyboard_listeners@.len(),
            decreases self.keyboard_listeners@.len() - i,
        {
            if self.keyboard_listeners[i].event_type == event.event_type {
                self.keyboard_listeners[i].listener.call(event);
            }
            i = i + 1;
        }
    }

    /// Key `key_code` went down: it counts as down this frame unless it was
    /// already held, and is held from now on; the key-down listeners are told.
    pub fn dispatch_key_down(&mut self, key_code: KeyCode)
        requires
            old(self).wf(),
        ensures
            final(self).wf(),
            final(self)@ == spec_key_down(old(self)@, key_code),
    {
        if !self.keys_pressed.contains(&key_code) {
            self.keys_down.insert(key_code);
        }
        self.keys_pressed.insert(key_code);
        let event = EventKeyboard::new(key_code, InputEventType::KeyDown);
        self.notify_keyboard(&event);
    }

    /// Key `key_code` was released: it is no longer held and counts as up
    /// this frame; the key-up listeners are told.
    pub fn dispatch_key_up(&mut self, key_code: KeyCode)
        requires
            old(self).wf(),
        ensures
            final(self).wf(),
            final(self)@ == spec_key_up(old(self)@, key_code),
    {
        self.keys_pressed.remove(&key_code);
        self.keys_up.insert(key_code);
        let event = EventKeyboard::new(key_code, InputEventType::KeyUp);
        self.notify_keyboard(&event);
    }

    /// Mouse button `button` went down: down this frame and held.
    pub fn press_mouse_button(&mut self, button: MouseButton)
        requires
            old(self).wf(),
        ensures
            final(self).wf(),
            final(self)@ == (InputView {
                buttons_down: old(self)@.buttons_down.insert(button),
                buttons_pressed: old(self)@.buttons_pressed.insert(button),
                ..old(self)@
            }),
    {
        self.mouse_buttons_down.insert(button);
        self.mouse_buttons_pressed.insert(button);
    }

    /// Mouse button `button` was released: no longer held.
    pub fn release_mouse_button(&mut self, button: MouseButton)
        requires
            old(self).wf(),
        ensures
            final(self).wf(),
            final(self)@ == (InputView { buttons_pressed: old(self)@.buttons_pressed.remove(button), ..old(self)@ }),
    {
        self.mouse_buttons_pressed.remove(&button);
    }

    /// Ends a frame: forgets what went down or up during it.
    pub fn frame_end(&mut self)
        requires
            old(self).wf(),
        ensures
            final(self).wf(),
            final(self)@ == spec_frame_end(old(self)@),
    {
        self.keys_down.clear();
        self.keys_up.clear();
        self.mouse_buttons_down.clear();
    }

    pub fn is_key_down(&self, key: KeyCode) -> (r: bool)
        ensures
            r == self@.keys_down.contains(key),
    {
        self.keys_down.contains(&key)
    }

    pub fn is_key_pressing(&self, key: KeyCode) -> (r: bool)
        ensures
            r == self@.keys_pressed.contains(key),
    {
        self.keys_pressed.contains(&key)
    }

    pub fn is_key_up(&self, key: KeyCode) -> (r: bool)
        ensures
            r == self@.keys_up.contains(key),
    {
        self.keys_up.contains(&key)
    }

    pub fn is_mouse_button_down(&self, button: MouseButton) -> (r: bool)
        ensures
            r == self@.buttons_down.contains(button),
    {
        self.mouse_buttons_down.contains(&button)
    }

    pub fn is_mouse_button_pressing(&self, button: MouseButton) -> (r: bool)
        ensures
            r == self@.buttons_pressed.contains(button),
    {
        self.mouse_buttons_pressed.contains(&button)
    }
}

impl Default for Input {
    fn default() -> (r: Self)
        ensures
            r.wf(),
            r@ == (InputView {
                keyboard_listeners: Seq::empty(),
                keys_down: Set::empty(),
                keys_pressed: Set::empty(),
                keys_up: Set::empty(),
                buttons_down: Set::empty(),
                buttons_pressed: Set::empty(),
            }),
    {
        Self::new()
    }
}

/// A key held across a frame boundary does not go down again when the
/// platform repeats it: a press is reported once.
pub proof fn lemma_repeat_is_not_down(v: InputView, k: KeyCode)
    requires
        v.keys_pressed.contains(k),
    ensures
        !spec_key_down(spec_frame_end(v), k).keys_down.contains(k),
        spec_key_down(spec_frame_end(v), k).keys_pressed.contains(k),
{
}

/// Pressing and releasing a key within a frame leaves it down and up for
/// that frame and no longer held; the frame's end forgets both.
pub proof fn lemma_tap_within_frame(v: InputView, k: KeyCode)
    requires
        !v.keys_pressed.contains(k),
    ensures
        ({
            let w = spec_key_up(spec_key_down(v, k), k);
            &&& w.keys_down.contains(k)
            &&& w.keys_up.contains(k)
            &&& !w.keys_pressed.contains(k)
            &&& !spec_frame_end(w).keys_down.contains(k)
            &&& !spec_frame_end(w).keys_up.contains(k)
        }),
{
}

} // verus!
