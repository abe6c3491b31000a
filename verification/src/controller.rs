//! Controller pool and state snapshot: per-device button bitmasks with
//! edge-triggered press / release detection against the previous tick's
//! captured state.

use vstd::prelude::*;

verus! {

/// Number of canonical buttons, each assigned one fixed bit position.
pub const NUM_BUTTONS: u16 = 15;

/// Number of analog axes per device.
pub const NUM_AXES: usize = 6;

/// The fixed, ordered enumeration of canonical buttons. Bit position `k` of
/// a button bitmask encodes whether button `k` is currently held.
#[derive(Clone, Copy, Debug, PartialEq)]
pub enum Button {
    A,
    B,
    X,
    Y,
    Back,
    Guide,
    Start,
    LeftStick,
    RightStick,
    LeftShoulder,
    RightShoulder,
    DPadUp,
    DPadDown,
    DPadLeft,
    DPadRight,
}

/// The fixed enumeration of analog axes.
#[derive(Clone, Copy, Debug, PartialEq)]
pub enum Axis {
    LeftX,
    LeftY,
    RightX,
    RightY,
    TriggerLeft,
    TriggerRight,
}

/// Bit position of a canonical button inside a button bitmask.
pub open spec fn spec_button_index(b: Button) -> u16 {
    match b {
        Button::A => 0,
        Button::B => 1,
        Button::X => 2,
        Button::Y => 3,
        Button::Back => 4,
        Button::Guide => 5,
        Button::Start => 6,
        Button::LeftStick => 7,
        Button::RightStick => 8,
        Button::LeftShoulder => 9,
        Button::RightShoulder => 10,
        Button::DPadUp => 11,
        Button::DPadDown => 12,
        Button::DPadLeft => 13,
        Button::DPadRight => 14,
    }
}

/// Bit position of a canonical button (executable form of
/// `spec_button_index`).
pub fn button_index(b: Button) -> (i: u16)
    ensures
        i == spec_button_index(b),
        i < NUM_BUTTONS,
{
    match b {
        Button::A => 0,
        Button::B => 1,
        Button::X => 2,
        Button::Y => 3,
        Button::Back => 4,
        Button::Guide => 5,
        Button::Start => 6,
        Button::LeftStick => 7,
        Button::RightStick => 8,
        Button::LeftShoulder => 9,
        Button::RightShoulder => 10,
        Button::DPadUp => 11,
        Button::DPadDown => 12,
        Button::DPadLeft => 13,
        Button::DPadRight => 14,
    }
}

/// Index of an axis inside a device's axis-value list.
pub open spec fn spec_axis_index(a: Axis) -> int {
    match a {
        Axis::LeftX => 0,
        Axis::LeftY => 1,
        Axis::RightX => 2,
        Axis::RightY => 3,
        Axis::TriggerLeft => 4,
        Axis::TriggerRight => 5,
    }
}

/// Index of an axis (executable form of `spec_axis_index`).
pub fn axis_index(a: Axis) -> (i: usize)
    ensures
        i == spec_axis_index(a),
        i < NUM_AXES,
{
    match a {
        Axis::LeftX => 0,
        Axis::LeftY => 1,
        Axis::RightX => 2,
        Axis::RightY => 3,
        Axis::TriggerLeft => 4,
        Axis::TriggerRight => 5,
    }
}

/// Whether bit `k` of bitmask `m` is set.
pub open spec fn spec_get_bit(m: u16, k: u16) -> bool {
    (m >> k) & 1 == 1
}

/// One device's button bitmask: bit `k` encodes whether canonical button `k`
/// is held.
#[derive(Clone, Copy, Debug, PartialEq)]
pub struct ButtonState(pub u16);

impl ButtonState {
    /// A bitmask with every button released.
    pub fn new() -> (s: Self)
        ensures
            forall|k: u16| !spec_get_bit(s.0, k),
    {
        proof {
            assert(forall|k: u16| !spec_get_bit(0u16, k)) by (bit_vector);
        }
        ButtonState(0)
    }

    /// Sets the button's bit, leaving every other bit unchanged.
    pub fn activate(&mut self, button: Button)
        ensures
            forall|k: u16| k < 16 ==> #[trigger] spec_get_bit(final(self).0, k) == (
                k == spec_button_index(button) || spec_get_bit(old(self).0, k)),
    {
        let i = button_index(button);
        let m0 = self.0;
        self.0 = self.0 | (1u16 << i);
        proof {
            let m1 = self.0;
            assert(forall|k: u16| k < 16 ==> #[trigger] spec_get_bit(m1, k) == (
                k == i || spec_get_bit(m0, k))) by (bit_vector)
                requires
                    i < 15,
                    m1 == m0 | (1u16 << i),
            ;
        }
    }

    /// Clears the button's bit, leaving every other bit unchanged.
    pub fn deactivate(&mut self, button: Button)
        ensures
            forall|k: u16| k < 16 ==> #[trigger] spec_get_bit(final(self).0, k) == (
                k != spec_button_index(button) && spec_get_bit(old(self).0, k)),
    {
        let i = button_index(button);
        let m0 = self.0;
        self.0 = self.0 & !(1u16 << i);
        proof {
            let m1 = self.0;
            assert(forall|k: u16| k < 16 ==> #[trigger] spec_get_bit(m1, k) == (
                k != i && spec_get_bit(m0, k))) by (bit_vector)
                requires
                    i < 15,
                    m1 == m0 & !(1u16 << i),
            ;
        }
    }

    /// Whether the button's bit is set.
    pub fn button(&self, button: Button) -> (held: bool)
        ensures
            held == spec_get_bit(self.0, spec_button_index(button)),
    {
        let i = button_index(button);
        let m = self.0;
        let r = m & (1u16 << i) > 0;
        proof {
            assert(r == spec_get_bit(m, i)) by (bit_vector)
                requires
                    i < 15,
                    r == (m & (1u16 << i) > 0),
            ;
        }
        r
    }
}

/// Every canonical button has a bit position below `NUM_BUTTONS`.
pub proof fn lemma_button_index_range(b: Button)
    ensures
        spec_button_index(b) < NUM_BUTTONS,
{
    match b {
        Button::A => {},
        Button::B => {},
        Button::X => {},
        Button::Y => {},
        Button::Back => {},
        Button::Guide => {},
        Button::Start => {},
        Button::LeftStick => {},
        Button::RightStick => {},
        Button::LeftShoulder => {},
        Button::RightShoulder => {},
        Button::DPadUp => {},
        Button::DPadDown => {},
        Button::DPadLeft => {},
        Button::DPadRight => {},
    }
}

/// Returns `mask` with bit `k` forced to `v` and every other bit unchanged.
fn set_bit_val(mask: u16, k: u16, v: bool) -> (r: u16)
    requires
        k < 16,
    ensures
        forall|j: u16|
            j < 16 ==> #[trigger] spec_get_bit(r, j) == (if j == k {
                v
            } else {
                spec_get_bit(mask, j)
            }),
{
    if v {
        let r = mask | (1u16 << k);
        proof {
            assert(forall|j: u16|
                j < 16 ==> #[trigger] spec_get_bit(r, j) == (if j == k {
                    true
                } else {
                    spec_get_bit(mask, j)
                })) by (bit_vector)
                requires
                    k < 16,
                    r == mask | (1u16 << k),
            ;
        }
        r
    } else {
        let r = mask & !(1u16 << k);
        proof {
            assert(forall|j: u16|
                j < 16 ==> #[trigger] spec_get_bit(r, j) == (if j == k {
                    false
                } else {
                    spec_get_bit(mask, j)
                })) by (bit_vector)
                requires
                    k < 16,
                    r == mask & !(1u16 << k),
            ;
        }
        r
    }
}

/// Plain record of one opened device: its identity as reported at startup
/// enumeration, and its volatile input state (button bitmask and axis
/// values) as read from the device layer for the current tick.
pub struct ControllerInfo {
    pub name: String,
    pub mapping: String,
    pub attached: bool,
    pub instance_id: i32,
    pub axes: Vec<i16>,
    pub buttons: u16,
}

impl ControllerInfo {
    /// One axis value per axis of the fixed enumeration.
    pub open spec fn wf(&self) -> bool {
        self.axes@.len() == NUM_AXES
    }

    /// A freshly opened device: identity as given, all buttons released,
    /// all axes centered.
    pub fn new(name: String, mapping: String, attached: bool, instance_id: i32) -> (d: Self)
        ensures
            d.wf(),
            d.name == name,
            d.mapping == mapping,
            d.attached == attached,
            d.instance_id == instance_id,
            d.buttons == 0u16,
            forall|j: int| 0 <= j < NUM_AXES ==> d.axes@[j] == 0i16,
    {
        let mut axes: Vec<i16> = Vec::new();
        let mut i: usize = 0;
        while i < NUM_AXES
            invariant
                i <= NUM_AXES,
                axes@.len() == i,
                forall|j: int| 0 <= j < i ==> axes@[j] == 0i16,
            decreases NUM_AXES - i,
        {
            axes.push(0);
            i += 1;
        }
        ControllerInfo { name, mapping, attached, instance_id, axes, buttons: 0 }
    }
}

/// The devices kept by `Controllers::new` out of an enumeration: the opened
/// ones, in enumeration order; devices that failed to open are skipped.
pub open spec fn opened_devices(candidates: Seq<Option<ControllerInfo>>) -> Seq<ControllerInfo>
    decreases candidates.len(),
{
    if candidates.len() == 0 {
        Seq::<ControllerInfo>::empty()
    } else {
        let front = opened_devices(candidates.drop_last());
        match candidates.last() {
            Some(d) => front.push(d),
            None => front,
        }
    }
}

/// The controller pool: the devices recognized and opened at startup
/// enumeration, in enumeration order. The position of a device in this
/// order is its slot, the identity used by every query. The pool is the
/// source of current button and axis truth; every accessor answers `None`
/// for an out-of-range slot instead of failing.
pub struct Controllers {
    pool: Vec<ControllerInfo>,
}

impl Controllers {
    /// The opened devices, in slot order.
    pub closed spec fn devices(&self) -> Seq<ControllerInfo> {
        self.pool@
    }

    /// Number of opened devices.
    pub open spec fn num_spec(&self) -> int {
        self.devices().len() as int
    }

    /// Every device record carries one value per axis.
    pub open spec fn wf(&self) -> bool {
        forall|n: int| 0 <= n < self.devices().len() ==> (#[trigger] self.devices()[n]).wf()
    }

    /// Whether bit `k` of slot `n`'s current button bitmask is set.
    pub open spec fn button_bit(&self, n: int, k: u16) -> bool {
        spec_get_bit(self.devices()[n].buttons, k)
    }

    /// Whether slot `n` currently holds `b`.
    pub open spec fn spec_button(&self, n: int, b: Button) -> bool {
        self.button_bit(n, spec_button_index(b))
    }

    /// Builds the pool from one startup enumeration: `candidates` holds, in
    /// enumeration order, `Some` record per device that was recognized and
    /// opened and `None` per device that was not; the latter are silently
    /// skipped, never fatal.
    pub fn new(candidates: Vec<Option<ControllerInfo>>) -> (c: Self)
        requires
            forall|j: int|
                0 <= j < candidates@.len() ==> (#[trigger] candidates@[j] matches Some(d)
                    ==> d.wf()),
        ensures
            c.wf(),
            c.devices() == opened_devices(candidates@),
    {
        let ghost orig = candidates@;
        let mut candidates = candidates;
        let mut pool: Vec<ControllerInfo> = Vec::new();
        while candidates.len() > 0
            invariant
                candidates@.len() <= orig.len(),
                candidates@ == orig.skip(orig.len() - candidates@.len()),
                pool@ == opened_devices(orig.take(orig.len() - candidates@.len())),
                forall|j: int|
                    0 <= j < orig.len() ==> (#[trigger] orig[j] matches Some(d) ==> d.wf()),
                forall|n: int| 0 <= n < pool@.len() ==> (#[trigger] pool@[n]).wf(),
            decreases candidates@.len(),
        {
            let ghost k = orig.len() - candidates@.len();
            proof {
                assert(candidates@[0] == orig[k]);
                assert(orig.take(k + 1).drop_last() =~= orig.take(k));
                assert(orig.take(k + 1).last() == orig[k]);
                assert(candidates@.remove(0) =~= orig.skip(k + 1));
            }
            let cand = candidates.remove(0);
            match cand {
                Some(d) => {
                    pool.push(d);
                },
                None => {},
            }
        }
        proof {
            assert(orig.take(orig.len() as int) =~= orig);
        }
        Controllers { pool }
    }

    /// Whether any device at all was opened.
    pub fn any(&self) -> (r: bool)
        ensures
            r == (self.num_spec() > 0),
    {
        self.pool.len() > 0
    }

    /// Whether `number` is a valid slot.
    pub fn slot_exists(&self, number: usize) -> (r: bool)
        ensures
            r == (number < self.num_spec()),
    {
        number < self.pool.len()
    }

    /// Number of opened devices.
    pub fn num(&self) -> (n: usize)
        ensures
            n == self.num_spec(),
    {
        self.pool.len()
    }

    /// The device's name, or `None` for an out-of-range slot.
    pub fn name(&self, number: usize) -> (r: Option<String>)
        ensures
            r == (if number < self.num_spec() {
                Some(self.devices()[number as int].name)
            } else {
                None::<String>
            }),
    {
        if number < self.pool.len() {
            return Some(self.pool[number].name.clone());
        }
        None
    }

    /// The device's mapping string, or `None` for an out-of-range slot.
    pub fn mapping(&self, number: usize) -> (r: Option<String>)
        ensures
            r == (if number < self.num_spec() {
                Some(self.devices()[number as int].mapping)
            } else {
                None::<String>
            }),
    {
        if number < self.pool.len() {
            return Some(self.pool[number].mapping.clone());
        }
        None
    }

    /// Whether the device is still attached, or `None` for an out-of-range
    /// slot.
    pub fn attached(&self, number: usize) -> (r: Option<bool>)
        ensures
            r == (if number < self.num_spec() {
                Some(self.devices()[number as int].attached)
            } else {
                None::<bool>
            }),
    {
        if number < self.pool.len() {
            return Some(self.pool[number].attached);
        }
        None
    }

    /// The device's instance id, or `None` for an out-of-range slot.
    pub fn instance_id(&self, number: usize) -> (r: Option<i32>)
        ensures
            r == (if number < self.num_spec() {
                Some(self.devices()[number as int].instance_id)
            } else {
                None::<i32>
            }),
    {
        if number < self.pool.len() {
            return Some(self.pool[number].instance_id);
        }
        None
    }

    /// The current raw value of one axis, or `None` for an out-of-range
    /// slot. No dead-zone handling here; that belongs to a caller.
    pub fn axis(&self, number: usize, axis: Axis) -> (r: Option<i16>)
        requires
            self.wf(),
        ensures
            r == (if number < self.num_spec() {
                Some(self.devices()[number as int].axes@[spec_axis_index(axis)])
            } else {
                None::<i16>
            }),
    {
        if number < self.pool.len() {
            proof {
                assert(self.devices()[number as int].wf());
            }
            let a = axis_index(axis);
            return Some(self.pool[number].axes[a]);
        }
        None
    }

    /// Whether the device currently holds the button, or `None` for an
    /// out-of-range slot.
    pub fn button(&self, number: usize, button: Button) -> (r: Option<bool>)
        ensures
            r == (if number < self.num_spec() {
                Some(self.spec_button(number as int, button))
            } else {
                None::<bool>
            }),
    {
        if number < self.pool.len() {
            let b = ButtonState(self.pool[number].buttons);
            return Some(b.button(button));
        }
        None
    }

    /// Replaces the volatile input state (button bitmask and axis values) of
    /// one slot with what the device layer read for this tick, leaving the
    /// device's identity and every other slot untouched. Returns whether the
    /// slot was valid; an out-of-range slot changes nothing.
    pub fn set_input(&mut self, number: usize, buttons: u16, axes: Vec<i16>) -> (ok: bool)
        requires
            old(self).wf(),
            axes@.len() == NUM_AXES,
        ensures
            final(self).wf(),
            ok == (number < old(self).num_spec()),
            final(self).num_spec() == old(self).num_spec(),
            !ok ==> final(self).devices() == old(self).devices(),
            ok ==> {
                let d0 = old(self).devices()[number as int];
                let d1 = final(self).devices()[number as int];
                &&& d1.buttons == buttons
                &&& d1.axes@ == axes@
                &&& d1.name == d0.name
                &&& d1.mapping == d0.mapping
                &&& d1.attached == d0.attached
                &&& d1.instance_id == d0.instance_id
                &&& forall|n: int|
                    0 <= n < old(self).num_spec() && n != number
                        ==> final(self).devices()[n] == old(self).devices()[n]
            },
    {
        if number < self.pool.len() {
            let d = &mut self.pool[number];
            d.buttons = buttons;
            d.axes = axes;
            proof {
                assert forall|n: int|
                    0 <= n < self.devices().len() implies (#[trigger] self.devices()[n]).wf() by {
                    if n != number as int {
                        assert(self.devices()[n] == old(self).devices()[n]);
                        assert(old(self).devices()[n].wf());
                    }
                }
            }
            true
        } else {
            false
        }
    }

    /// Edge query: the button was pressed this tick, that is, it is held now
    /// and the snapshot of the previous tick shows it not held. `None` if the
    /// slot is out of range in the pool or in the snapshot.
    pub fn button_down(&self, number: usize, button: Button, state: &ControllerState) -> (r:
        Option<bool>)
        ensures
            r == spec_was_pressed(self, state, number as int, button),
    {
        match self.button(number, button) {
            Some(down) => {
                match state.button(number, button) {
                    Some(was_down) => Some(down && !was_down),
                    None => None,
                }
            },
            None => None,
        }
    }

    /// Edge query: the button was released this tick, that is, it is not
    /// held now and the snapshot of the previous tick shows it held. `None`
    /// if the slot is out of range in the pool or in the snapshot.
    pub fn button_up(&self, number: usize, button: Button, state: &ControllerState) -> (r:
        Option<bool>)
        ensures
            r == spec_was_released(self, state, number as int, button),
    {
        match self.button(number, button) {
            Some(down) => {
                match state.button(number, button) {
                    Some(was_down) => Some(!down && was_down),
                    None => None,
                }
            },
            None => None,
        }
    }
}

/// What `button_down` answers: `Some(held now and not held in the snapshot)`
/// for a slot valid in both, `None` otherwise.
pub open spec fn spec_was_pressed(
    c: &Controllers,
    s: &ControllerState,
    n: int,
    b: Button,
) -> Option<bool> {
    if 0 <= n < c.num_spec() && n < s.len_spec() {
        Some(c.spec_button(n, b) && !s.spec_button(n, b))
    } else {
        None::<bool>
    }
}

/// What `button_up` answers: `Some(not held now and held in the snapshot)`
/// for a slot valid in both, `None` otherwise.
pub open spec fn spec_was_released(
    c: &Controllers,
    s: &ControllerState,
    n: int,
    b: Button,
) -> Option<bool> {
    if 0 <= n < c.num_spec() && n < s.len_spec() {
        Some(!c.spec_button(n, b) && s.spec_button(n, b))
    } else {
        None::<bool>
    }
}

/// Press and release are exclusive, and on a slot valid in both pool and
/// snapshot they are exact complements restricted to the changed cases:
/// never both true, both false exactly when the button's state did not
/// change, and exactly one true when it did.
pub proof fn lemma_pressed_released_complement(
    c: &Controllers,
    s: &ControllerState,
    n: int,
    b: Button,
)
    requires
        0 <= n < c.num_spec(),
        n < s.len_spec(),
    ensures
        !(spec_was_pressed(c, s, n, b) == Some(true) && spec_was_released(c, s, n, b) == Some(
            true,
        )),
        (c.spec_button(n, b) == s.spec_button(n, b)) <==> (spec_was_pressed(c, s, n, b) == Some(
            false,
        ) && spec_was_released(c, s, n, b) == Some(false)),
        (c.spec_button(n, b) != s.spec_button(n, b)) <==> (spec_was_pressed(c, s, n, b) != spec_was_released(
            c,
            s,
            n,
            b,
        )),
{
}

/// A snapshot that agrees with the pool on every slot and button — exactly
/// what `capture` leaves behind — reports no transition at all: capturing
/// twice in a row with no pool change yields no further presses or releases.
pub proof fn lemma_no_transitions_after_capture(
    c: &Controllers,
    s: &ControllerState,
    n: int,
    b: Button,
)
    requires
        0 <= n < c.num_spec(),
        n < s.len_spec(),
        forall|i: int, k: u16|
            0 <= i < c.num_spec() && k < NUM_BUTTONS ==> #[trigger] s.bit(i, k) == c.button_bit(
                i,
                k,
            ),
    ensures
        spec_was_pressed(c, s, n, b) == Some(false),
        spec_was_released(c, s, n, b) == Some(false),
{
    lemma_button_index_range(b);
    assert(s.bit(n, spec_button_index(b)) == c.button_bit(n, spec_button_index(b)));
}

/// The controller state snapshot: one button bitmask per device slot,
/// holding the state as of the end of the previous tick. Read by the edge
/// queries and overwritten, once per tick and after all edge queries, by
/// `update`.
pub struct ControllerState {
    buttons: Vec<ButtonState>,
}

impl ControllerState {
    /// Number of slots the snapshot was sized to at construction.
    pub closed spec fn len_spec(&self) -> int {
        self.buttons@.len() as int
    }

    /// The recorded bitmask of one slot.
    pub closed spec fn mask(&self, n: int) -> u16 {
        self.buttons@[n].0
    }

    /// Whether bit `k` of slot `n`'s recorded bitmask is set.
    pub open spec fn bit(&self, n: int, k: u16) -> bool {
        spec_get_bit(self.mask(n), k)
    }

    /// Whether the snapshot recorded `b` as held on slot `n`.
    pub open spec fn spec_button(&self, n: int, b: Button) -> bool {
        self.bit(n, spec_button_index(b))
    }

    /// A zeroed snapshot with one bitmask per device currently in the pool.
    /// The size is fixed here; devices appearing later are not supported.
    pub fn new(controllers: &Controllers) -> (s: Self)
        ensures
            s.len_spec() == controllers.num_spec(),
            forall|n: int| 0 <= n < s.len_spec() ==> s.mask(n) == 0u16,
            forall|n: int, k: u16| 0 <= n < s.len_spec() ==> !(#[trigger] s.bit(n, k)),
    {
        let mut buttons: Vec<ButtonState> = Vec::new();
        let n = controllers.num();
        let mut i: usize = 0;
        while i < n
            invariant
                i <= n,
                buttons@.len() == i,
                forall|j: int| 0 <= j < i ==> (#[trigger] buttons@[j]).0 == 0u16,
            decreases n - i,
        {
            buttons.push(ButtonState(0));
            i += 1;
        }
        proof {
            assert(forall|k: u16| !spec_get_bit(0u16, k)) by (bit_vector);
        }
        ControllerState { buttons }
    }

    /// Number of slots the snapshot covers.
    pub fn len(&self) -> (n: usize)
        ensures
            n == self.len_spec(),
    {
        self.buttons.len()
    }

    /// The snapshot's recorded held / not-held answer for one button, or
    /// `None` for an out-of-range slot.
    pub fn button(&self, number: usize, button: Button) -> (r: Option<bool>)
        ensures
            r == (if number < self.len_spec() {
                Some(self.spec_button(number as int, button))
            } else {
                None::<bool>
            }),
    {
        if number < self.buttons.len() {
            let b = self.buttons[number];
            return Some(b.button(button));
        }
        None
    }

    /// Capture: reads each of the fifteen canonical buttons of every pool
    /// slot and fully replaces that slot's recorded bitmask with the result.
    /// Must run once per tick, after all edge queries of the tick, since it
    /// overwrites the previous state those queries compare against.
    #[verifier::rlimit(60)]
    pub fn update(&mut self, controllers: &Controllers)
        requires
            controllers.num_spec() <= old(self).len_spec(),
        ensures
            final(self).len_spec() == old(self).len_spec(),
            forall|i: int, k: u16|
                0 <= i < controllers.num_spec() && k < NUM_BUTTONS ==> #[trigger] final(self).bit(
                    i,
                    k,
                ) == controllers.button_bit(i, k),
            forall|i: int|
                controllers.num_spec() <= i < old(self).len_spec() ==> final(self).mask(i) == old(
                    self,
                ).mask(i),
    {
        let n = controllers.num();
        let mut i: usize = 0;
        while i < n
            invariant
                i <= n,
                n == controllers.num_spec(),
                n <= self.buttons@.len(),
                self.buttons@.len() == old(self).buttons@.len(),
                forall|t: int, k: u16|
                    0 <= t < i && k < NUM_BUTTONS ==> #[trigger] self.bit(t, k)
                        == controllers.button_bit(t, k),
                forall|t: int| i <= t < self.buttons@.len() ==> self.mask(t) == old(self).mask(t),
            decreases n - i,
        {
            let mut tally: u16 = 0;
            tally = set_bit_val(tally, 0, controllers.button(i, Button::A).unwrap());
            tally = set_bit_val(tally, 1, controllers.button(i, Button::B).unwrap());
            tally = set_bit_val(tally, 2, controllers.button(i, Button::X).unwrap());
            tally = set_bit_val(tally, 3, controllers.button(i, Button::Y).unwrap());
            tally = set_bit_val(tally, 4, controllers.button(i, Button::Back).unwrap());
            tally = set_bit_val(tally, 5, controllers.button(i, Button::Guide).unwrap());
            tally = set_bit_val(tally, 6, controllers.button(i, Button::Start).unwrap());
            tally = set_bit_val(tally, 7, controllers.button(i, Button::LeftStick).unwrap());
            tally = set_bit_val(tally, 8, controllers.button(i, Button::RightStick).unwrap());
            tally = set_bit_val(tally, 9, controllers.button(i, Button::LeftShoulder).unwrap());
            tally = set_bit_val(tally, 10, controllers.button(i, Button::RightShoulder).unwrap());
            tally = set_bit_val(tally, 11, controllers.button(i, Button::DPadUp).unwrap());
            tally = set_bit_val(tally, 12, controllers.button(i, Button::DPadDown).unwrap());
            tally = set_bit_val(tally, 13, controllers.button(i, Button::DPadLeft).unwrap());
            tally = set_bit_val(tally, 14, controllers.button(i, Button::DPadRight).unwrap());
            let ghost prev = *self;
            self.buttons[i] = ButtonState(tally);
            proof {
                assert forall|t: int, k: u16|
                    0 <= t < i + 1 && k < NUM_BUTTONS implies #[trigger] self.bit(t, k)
                        == controllers.button_bit(t, k) by {
                    if t == i as int {
                        assert(self.mask(t) == tally);
                        assert(spec_get_bit(tally, k) == controllers.button_bit(t, k));
                    } else {
                        assert(self.mask(t) == prev.mask(t));
                        assert(prev.bit(t, k) == controllers.button_bit(t, k));
                    }
                }
            }
            i += 1;
        }
    }
}

} // verus!
