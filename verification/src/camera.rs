//! Keyboard state of the free-flying camera: which movement keys are held,
//! and the direction of travel they ask for.

use vstd::prelude::*;

verus! {

/// The keys that move the camera.
#[derive(Clone, Copy, PartialEq, Eq, Structural, Hash, Debug)]
pub enum MoveKey {
    /// Forward.
    W,
    /// Left.
    A,
    /// Backward.
    S,
    /// Right.
    D,
    /// Up.
    Space,
    /// Down.
    ShiftLeft,
}

/// The set of movement keys currently held.
#[derive(Clone, Copy, Debug)]
pub struct PressedKeys {
    w: bool,
    a: bool,
    s: bool,
    d: bool,
    space: bool,
    shift_left: bool,
}

impl View for PressedKeys {
    type V = Set<MoveKey>;

    closed spec fn view(&self) -> Set<MoveKey> {
        Set::new(
            |k: MoveKey|
                match k {
                    MoveKey::W => self.w,
                    MoveKey::A => self.a,
                    MoveKey::S => self.s,
                    MoveKey::D => self.d,
                    MoveKey::Space => self.space,
                    MoveKey::ShiftLeft => self.shift_left,
                },
        )
    }
}

/// The held keys after `key` was pressed or released.
pub open spec fn after_key(keys: Set<MoveKey>, key: MoveKey, pressed: bool) -> Set<MoveKey> {
    if pressed {
        keys.insert(key)
    } else {
        keys.remove(key)
    }
}

/// Direction of travel asked for by the held keys, per camera axis: each
/// component is +1, -1, or 0 when neither or both of its keys are held.
#[derive(Clone, Copy, PartialEq, Eq, Structural, Debug)]
pub struct MoveIntent {
    /// Along the camera's horizontal front: W minus S.
    pub forward: i8,
    /// Along the camera's right: D minus A.
    pub right: i8,
    /// Along world up: Space minus left Shift.
    pub up: i8,
}

/// +1 for the positive key, -1 for the negative key, 0 for both or none.
pub open spec fn axis_intent(keys: Set<MoveKey>, positive: MoveKey, negative: MoveKey) -> int {
    (if keys.contains(positive) {
        1int
    } else {
        0int
    }) - (if keys.contains(negative) {
        1int
    } else {
        0int
    })
}

fn axis(positive: bool, negative: bool) -> (v: i8)
    ensures
        v == (if positive {
            1int
        } else {
            0int
        }) - (if negative {
            1int
        } else {
            0int
        }),
{
    let mut v: i8 = 0;
    if positive {
        v = v + 1;
    }
    if negative {
        v = v - 1;
    }
    v
}

impl PressedKeys {
    /// No key held.
    pub fn new() -> (keys: Self)
        ensures
            keys@ == Set::<MoveKey>::empty(),
    {
        let keys = PressedKeys { w: false, a: false, s: false, d: false, space: false, shift_left: false };
        assert(keys@ =~= Set::<MoveKey>::empty());
        keys
    }

    /// Records that `key` was pressed or released.
    pub fn key_changed(&mut self, key: MoveKey, pressed: bool)
        ensures
            final(self)@ == after_key(old(self)@, key, pressed),
    {
        match key {
            MoveKey::W => self.w = pressed,
            MoveKey::A => self.a = pressed,
            MoveKey::S => self.s = pressed,
            MoveKey::D => self.d = pressed,
            MoveKey::Space => self.space = pressed,
            MoveKey::ShiftLeft => self.shift_left = pressed,
        }
        assert(self@ =~= after_key(old(self)@, key, pressed));
    }

    /// Whether `key` is held.
    pub fn contains(&self, key: MoveKey) -> (held: bool)
        ensures
            held == self@.contains(key),
    {
        match key {
            MoveKey::W => self.w,
            MoveKey::A => self.a,
            MoveKey::S => self.s,
            MoveKey::D => self.d,
            MoveKey::Space => self.space,
            MoveKey::ShiftLeft => self.shift_left,
        }
    }

    /// The direction of travel the held keys ask for.
    pub fn movement_intent(&self) -> (intent: MoveIntent)
        ensures
            intent.forward == axis_intent(self@, MoveKey::W, MoveKey::S),
            intent.right == axis_intent(self@, MoveKey::D, MoveKey::A),
            intent.up == axis_intent(self@, MoveKey::Space, MoveKey::ShiftLeft),
    {
        MoveIntent {
            forward: axis(self.w, self.s),
            right: axis(self.d, self.a),
            up: axis(self.space, self.shift_left),
        }
    }
}

/// Releasing a key undoes pressing it: pressing a key that was not held and
/// releasing it again leaves the held keys as they were; releasing is
/// final whatever came before, and pressing twice is pressing once.
pub proof fn lemma_release_undoes_press(keys: Set<MoveKey>, key: MoveKey)
    ensures
        !keys.contains(key) ==> after_key(after_key(keys, key, true), key, false) == keys,
        after_key(after_key(keys, key, true), key, false) == after_key(keys, key, false),
        after_key(after_key(keys, key, true), key, true) == after_key(keys, key, true),
{
    assert(after_key(after_key(keys, key, true), key, false) =~= after_key(keys, key, false));
    assert(after_key(after_key(keys, key, true), key, true) =~= after_key(keys, key, true));
    if !keys.contains(key) {
        assert(after_key(after_key(keys, key, true), key, false) =~= keys);
    }
}

/// Opposite keys cancel: holding both keys of an axis asks for no motion
/// along it, just like holding neither.
pub proof fn lemma_opposite_keys_cancel(keys: Set<MoveKey>, positive: MoveKey, negative: MoveKey)
    requires
        keys.contains(positive) == keys.contains(negative),
    ensures
        axis_intent(keys, positive, negative) == 0,
{
}

} // verus!
