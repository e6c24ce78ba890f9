//! The viewer's decisions: what input does, which snapshots to show, and when
//! to resize or reallocate. Coordinates and measurements are float bit
//! patterns.
use vstd::prelude::*;

use crate::float_bits::{less, Vec3, ONE};
#[allow(unused_imports)]
use crate::float_bits::{is_nan, le, lt};
use crate::pipelines::PROJECTED_BYTES;

verus! {

/// Width of the viewport before it is first laid out.
pub const DEFAULT_VIEWPORT_WIDTH: u32 = 960;

/// Height of the viewport before it is first laid out.
pub const DEFAULT_VIEWPORT_HEIGHT: u32 = 720;

/// A key that the viewer knows.
#[derive(Clone, Copy, Debug, PartialEq, Eq, Structural)]
pub enum Key {
    W,
    A,
    S,
    D,
    Q,
    E,
    Escape,
    Other,
}

/// A mouse button that the viewer knows.
#[derive(Clone, Copy, Debug, PartialEq, Eq, Structural)]
pub enum Button {
    Left,
    Right,
    Other,
}

/// A window event. `consumed` says that the user interface took a key for
/// itself, `captured` that the pointer is over it.
#[derive(Clone, Copy, Debug, PartialEq, Eq, Structural)]
pub enum ViewEvent {
    CloseRequested,
    Keyboard { key: Key, pressed: bool, consumed: bool },
    Resized { width: u32, height: u32 },
    MouseInput { button: Button, pressed: bool, captured: bool },
    /// The cursor's position, as double-precision bit patterns.
    CursorMoved { x: u64, y: u64, captured: bool },
    MouseWheel { captured: bool },
    RedrawRequested,
    Other,
}

/// What a window event asks for.
#[derive(Clone, Copy, Debug, PartialEq, Eq, Structural)]
pub enum ViewAction {
    Nothing,
    Exit,
    Resize { width: u32, height: u32 },
    /// Turn around the target by the way from this position.
    Orbit { from_x: u64, from_y: u64 },
    /// Shift the target by the way from this position.
    Pan { from_x: u64, from_y: u64 },
    Zoom,
    Draw,
}

/// Buttons and keys that are down, and where the cursor was last seen while
/// dragging; both coordinates are zero until it is seen.
#[derive(Clone, Copy, Debug, PartialEq, Eq, Structural)]
pub struct InputState {
    pub lmb: bool,
    pub rmb: bool,
    pub last_x: u64,
    pub last_y: u64,
    pub w: bool,
    pub a: bool,
    pub s: bool,
    pub d: bool,
    pub q: bool,
    pub e: bool,
}

/// A step of the camera's target in the camera's frame.
#[derive(Clone, Copy, Debug, PartialEq, Eq, Structural)]
pub enum FlyStep {
    Forward,
    Back,
    Right,
    Left,
    Up,
    Down,
}

/// Whether a double-precision pattern is a zero of either sign.
pub open spec fn is_zero(bits: u64) -> bool {
    bits == 0 || bits == 0x8000_0000_0000_0000
}

fn zero_bits(bits: u64) -> (zero: bool)
    ensures
        zero == is_zero(bits),
{
    bits == 0 || bits == 0x8000_0000_0000_0000
}

/// `step` alone if its key is down.
pub open spec fn step_if(down: bool, step: FlyStep) -> Seq<FlyStep> {
    if down {
        seq![step]
    } else {
        Seq::empty()
    }
}

impl InputState {
    /// Without a button down no cursor position is remembered.
    pub open spec fn wf(self) -> bool {
        !self.lmb && !self.rmb ==> self.last_x == 0 && self.last_y == 0
    }

    /// Whether a drag has a position to start from.
    pub open spec fn has_previous(self) -> bool {
        !is_zero(self.last_x) || !is_zero(self.last_y)
    }

    /// The state with a key up or down.
    pub open spec fn with_key(self, key: Key, pressed: bool) -> Self {
        match key {
            Key::W => InputState { w: pressed, ..self },
            Key::A => InputState { a: pressed, ..self },
            Key::S => InputState { s: pressed, ..self },
            Key::D => InputState { d: pressed, ..self },
            Key::Q => InputState { q: pressed, ..self },
            Key::E => InputState { e: pressed, ..self },
            _ => self,
        }
    }

    /// The state with a mouse button up or down. Letting go of the left button
    /// forgets the cursor; letting go of the right one does so unless the left
    /// one is down.
    pub open spec fn with_button(self, button: Button, pressed: bool) -> Self {
        match button {
            Button::Left => if pressed {
                InputState { lmb: true, ..self }
            } else {
                InputState { lmb: false, last_x: 0, last_y: 0, ..self }
            },
            Button::Right => if pressed || self.lmb {
                InputState { rmb: pressed, ..self }
            } else {
                InputState { rmb: false, last_x: 0, last_y: 0, ..self }
            },
            Button::Other => self,
        }
    }

    /// The state after an event.
    pub open spec fn after(self, event: ViewEvent) -> Self {
        match event {
            ViewEvent::Keyboard { key, pressed, consumed } => if consumed {
                self
            } else {
                self.with_key(key, pressed)
            },
            ViewEvent::MouseInput { button, pressed, captured } => if captured {
                self
            } else {
                self.with_button(button, pressed)
            },
            ViewEvent::CursorMoved { x, y, captured } => if !captured && (self.lmb || self.rmb) {
                InputState { last_x: x, last_y: y, ..self }
            } else {
                self
            },
            _ => self,
        }
    }

    /// What an event asks for.
    pub open spec fn action(self, event: ViewEvent) -> ViewAction {
        match event {
            ViewEvent::CloseRequested => ViewAction::Exit,
            ViewEvent::Keyboard { key, pressed, consumed } => if key is Escape && pressed
                && !consumed {
                ViewAction::Exit
            } else {
                ViewAction::Nothing
            },
            ViewEvent::Resized { width, height } => if width == 0 || height == 0 {
                ViewAction::Nothing
            } else {
                ViewAction::Resize { width, height }
            },
            ViewEvent::CursorMoved { captured, .. } => if captured || !self.has_previous() {
                ViewAction::Nothing
            } else if self.lmb {
                ViewAction::Orbit { from_x: self.last_x, from_y: self.last_y }
            } else if self.rmb {
                ViewAction::Pan { from_x: self.last_x, from_y: self.last_y }
            } else {
                ViewAction::Nothing
            },
            ViewEvent::MouseWheel { captured } => if captured {
                ViewAction::Nothing
            } else {
                ViewAction::Zoom
            },
            ViewEvent::RedrawRequested => ViewAction::Draw,
            _ => ViewAction::Nothing,
        }
    }

    /// Takes an event.
    pub fn window_event(&mut self, event: ViewEvent) -> (action: ViewAction)
        ensures
            *final(self) == old(self).after(event),
            action == old(self).action(event),
            old(self).wf() ==> final(self).wf(),
    {
        match event {
            ViewEvent::CloseRequested => ViewAction::Exit,
            ViewEvent::Keyboard { key, pressed, consumed } => {
                if consumed {
                    return ViewAction::Nothing;
                }
                match key {
                    Key::W => {
                        self.w = pressed;
                    },
                    Key::A => {
                        self.a = pressed;
                    },
                    Key::S => {
                        self.s = pressed;
                    },
                    Key::D => {
                        self.d = pressed;
                    },
                    Key::Q => {
                        self.q = pressed;
                    },
                    Key::E => {
                        self.e = pressed;
                    },
                    Key::Escape => {
                        if pressed {
                            return ViewAction::Exit;
                        }
                    },
                    Key::Other => {},
                }
                ViewAction::Nothing
            },
            ViewEvent::Resized { width, height } => {
                if width == 0 || height == 0 {
                    ViewAction::Nothing
                } else {
                    ViewAction::Resize { width, height }
                }
            },
            ViewEvent::MouseInput { button, pressed, captured } => {
                if !captured {
                    match button {
                        Button::Left => {
                            self.lmb = pressed;
                            if !pressed {
                                self.last_x = 0;
                                self.last_y = 0;
                            }
                        },
                        Button::Right => {
                            self.rmb = pressed;
                            if !pressed && !self.lmb {
                                self.last_x = 0;
                                self.last_y = 0;
                            }
                        },
                        Button::Other => {},
                    }
                }
                ViewAction::Nothing
            },
            ViewEvent::CursorMoved { x, y, captured } => {
                if captured || !(self.lmb || self.rmb) {
                    return ViewAction::Nothing;
                }
                let from_x: u64 = self.last_x;
                let from_y: u64 = self.last_y;
                let has_previous: bool = !zero_bits(from_x) || !zero_bits(from_y);
                self.last_x = x;
                self.last_y = y;
                if !has_previous {
                    ViewAction::Nothing
                } else if self.lmb {
                    ViewAction::Orbit { from_x, from_y }
                } else {
                    ViewAction::Pan { from_x, from_y }
                }
            },
            ViewEvent::MouseWheel { captured } => {
                if captured {
                    ViewAction::Nothing
                } else {
                    ViewAction::Zoom
                }
            },
            ViewEvent::RedrawRequested => ViewAction::Draw,
            ViewEvent::Other => ViewAction::Nothing,
        }
    }

    /// The steps that the keys ask for, in the order in which they apply.
    pub open spec fn flight(self) -> Seq<FlyStep> {
        step_if(self.w, FlyStep::Forward) + step_if(self.s, FlyStep::Back) + step_if(
            self.d,
            FlyStep::Right,
        ) + step_if(self.a, FlyStep::Left) + step_if(self.e, FlyStep::Up) + step_if(
            self.q,
            FlyStep::Down,
        )
    }

    /// The steps that the keys ask for.
    pub fn fly_steps(&self) -> (steps: Vec<FlyStep>)
        ensures
            steps@ == self.flight(),
    {
        let mut steps: Vec<FlyStep> = Vec::new();
        if self.w {
            steps.push(FlyStep::Forward);
        }
        if self.s {
            steps.push(FlyStep::Back);
        }
        if self.d {
            steps.push(FlyStep::Right);
        }
        if self.a {
            steps.push(FlyStep::Left);
        }
        if self.e {
            steps.push(FlyStep::Up);
        }
        if self.q {
            steps.push(FlyStep::Down);
        }
        assert(steps@ =~= self.flight());
        steps
    }
}

impl Default for InputState {
    /// Nothing is down.
    fn default() -> (input: Self)
        ensures
            input == (InputState {
                lmb: false,
                rmb: false,
                last_x: 0,
                last_y: 0,
                w: false,
                a: false,
                s: false,
                d: false,
                q: false,
                e: false,
            }),
            input.wf(),
    {
        InputState {
            lmb: false,
            rmb: false,
            last_x: 0,
            last_y: 0,
            w: false,
            a: false,
            s: false,
            d: false,
            q: false,
            e: false,
        }
    }
}

/// The first cursor event after a press never drags: the camera does not lurch
/// towards where the cursor comes from. The next one drags from there.
pub proof fn law_drag_starts_at_rest(
    input: InputState,
    button: Button,
    first: ViewEvent,
    second: ViewEvent,
)
    requires
        input.wf(),
        !input.lmb && !input.rmb,
        button is Left || button is Right,
        first is CursorMoved && !first->CursorMoved_captured,
        second is CursorMoved && !second->CursorMoved_captured,
    ensures
        ({
            let down = input.after(
                ViewEvent::MouseInput { button, pressed: true, captured: false },
            );
            let moved = down.after(first);
            &&& down.action(first) == ViewAction::Nothing
            &&& !is_zero(first->x) || !is_zero(first->y) ==> moved.action(second) == if button
                is Left {
                ViewAction::Orbit { from_x: first->x, from_y: first->y }
            } else {
                ViewAction::Pan { from_x: first->x, from_y: first->y }
            }
        }),
{
}

/// Input that the user interface keeps for itself changes nothing and asks for
/// nothing.
pub proof fn law_captured_input_is_ignored(input: InputState, event: ViewEvent)
    requires
        match event {
            ViewEvent::Keyboard { consumed, .. } => consumed,
            ViewEvent::MouseInput { captured, .. } => captured,
            ViewEvent::CursorMoved { captured, .. } => captured,
            ViewEvent::MouseWheel { captured } => captured,
            _ => false,
        },
    ensures
        input.after(event) == input,
        input.action(event) == ViewAction::Nothing,
{
}

/// How many of the leading `ages` exceed one second. Ages are in seconds,
/// oldest first.
pub fn expired_frames(ages: &[u32]) -> (n: usize)
    ensures
        n <= ages.len(),
        forall|i: int| 0 <= i < n ==> lt(ONE, #[trigger] ages@[i]),
        n < ages.len() ==> !lt(ONE, ages@[n as int]),
{
    let mut n: usize = 0;
    while n < ages.len() && less(ONE, ages[n])
        invariant
            n <= ages.len(),
            forall|i: int| 0 <= i < n ==> lt(ONE, #[trigger] ages@[i]),
        decreases ages.len() - n,
    {
        n = n + 1;
    }
    n
}

/// What a training run says of an iteration.
#[derive(Clone, Copy, Debug, PartialEq, Eq, Structural)]
pub struct TrainStats {
    pub iter: u32,
    /// The loss, as float bits.
    pub mse: u32,
    pub splat_count: u32,
}

/// The version that follows `version`.
pub fn next_version(version: u64) -> (next: u64)
    ensures
        next == if version == u64::MAX {
            0
        } else {
            (version + 1) as u64
        },
{
    version.wrapping_add(1)
}

/// What the viewer has seen of a training run.
pub struct TrainingFeed {
    pub last_seen_version: u64,
    /// The error of every snapshot that was shown.
    pub history: Vec<u32>,
}

impl TrainingFeed {
    /// Nothing was seen.
    pub fn new() -> (feed: Self)
        ensures
            feed.last_seen_version == 0,
            feed.history.len() == 0,
    {
        TrainingFeed { last_seen_version: 0, history: Vec::new() }
    }

    /// Looks at the latest snapshot. A version newer than any before is to be
    /// shown and its error is recorded; any other changes nothing.
    pub fn observe(&mut self, version: u64, stats: &TrainStats) -> (fresh: bool)
        ensures
            fresh == (version > old(self).last_seen_version),
            fresh ==> final(self).last_seen_version == version && final(self).history@ == old(
                self,
            ).history@.push(stats.mse),
            !fresh ==> *final(self) == *old(self),
    {
        if version > self.last_seen_version {
            self.last_seen_version = version;
            self.history.push(stats.mse);
            true
        } else {
            false
        }
    }
}

/// What to tell the trainer after the user interface ran: a change of the
/// pause switch, or nothing.
pub fn pause_change(before: bool, after: bool) -> (change: Option<bool>)
    ensures
        change == if after != before {
            Some(after)
        } else {
            None
        },
{
    if after != before {
        Some(after)
    } else {
        None
    }
}

/// How to bring a snapshot onto the device.
#[derive(Clone, Copy, Debug, PartialEq, Eq, Structural)]
pub enum SplatUpdate {
    /// Overwrite the buffers in place.
    Sync,
    /// Allocate buffers anew, with this many bytes for the projected splats.
    Reallocate { projected_bytes: u64 },
}

/// Buffers are kept as long as the number of splats stays the same.
pub fn splat_update(snapshot_len: u32, device_len: u32) -> (update: SplatUpdate)
    ensures
        update == if snapshot_len == device_len {
            SplatUpdate::Sync
        } else {
            SplatUpdate::Reallocate { projected_bytes: (snapshot_len * 48) as u64 }
        },
{
    if snapshot_len == device_len {
        SplatUpdate::Sync
    } else {
        SplatUpdate::Reallocate { projected_bytes: snapshot_len as u64 * PROJECTED_BYTES }
    }
}

/// `a` or one, whichever is larger.
pub open spec fn positive(a: u32) -> u32 {
    if a == 0 {
        1
    } else {
        a
    }
}

/// The extent to configure a surface with: never empty.
pub fn surface_extent(width: u32, height: u32) -> (extent: (u32, u32))
    ensures
        extent == (positive(width), positive(height)),
{
    (if width == 0 { 1 } else { width }, if height == 0 { 1 } else { height })
}

/// The extent to reallocate the render targets with, if the requested one is
/// not the current one.
pub fn viewport_resize(current: (u32, u32), requested: (u32, u32)) -> (extent: Option<(u32, u32)>)
    ensures
        extent == if requested == current {
            None
        } else {
            Some((positive(requested.0), positive(requested.1)))
        },
{
    if requested.0 == current.0 && requested.1 == current.1 {
        None
    } else {
        Some(surface_extent(requested.0, requested.1))
    }
}

/// The least multiple of sixteen that is at least `available` and 64.
pub open spec fn is_viewport_side(side: u32, available: u32) -> bool {
    &&& side % 16 == 0
    &&& side >= available
    &&& side >= 64
    &&& side == 64 || side - 16 < available
}

/// A side of the viewport: at least 64 pixels, rounded up to whole tiles.
pub fn viewport_side(available: u32) -> (side: u32)
    requires
        available <= u32::MAX - 15,
    ensures
        is_viewport_side(side, available),
{
    let least: u32 = if available < 64 {
        64
    } else {
        available
    };
    if least % 16 == 0 {
        least
    } else {
        least + (16 - least % 16)
    }
}

/// A viewport side leaves no room for another: it is determined by what is
/// available, and whole tiles cover it without remainder.
pub proof fn law_viewport_side_is_unique(a: u32, b: u32, available: u32)
    requires
        is_viewport_side(a, available),
        is_viewport_side(b, available),
    ensures
        a == b,
{
}

/// The index of the surface format to use: the first sRGB one, else the first.
/// `srgb` says of each supported format whether it is one.
pub fn pick_format(srgb: &[bool]) -> (index: usize)
    requires
        srgb.len() > 0,
    ensures
        index < srgb.len(),
        srgb@[index as int] ==> forall|i: int| 0 <= i < index ==> !(#[trigger] srgb@[i]),
        !srgb@[index as int] ==> index == 0 && forall|i: int|
            0 <= i < srgb.len() ==> !(#[trigger] srgb@[i]),
{
    let mut i: usize = 0;
    while i < srgb.len()
        invariant
            i <= srgb.len(),
            forall|k: int| 0 <= k < i ==> !(#[trigger] srgb@[k]),
        decreases srgb.len() - i,
    {
        if srgb[i] {
            return i;
        }
        i = i + 1;
    }
    0
}

/// A tab of the dock.
#[derive(Clone, Copy, Debug, PartialEq, Eq, Structural)]
pub enum Tab {
    Viewport,
    Inspector,
    Training,
}

impl Tab {
    /// The tab's title.
    pub fn title(&self) -> (title: &'static str)
        ensures
            match self {
                Tab::Viewport => title@ == "Viewport"@,
                Tab::Inspector => title@ == "Inspector"@,
                Tab::Training => title@ == "Training"@,
            },
    {
        match self {
            Tab::Viewport => "Viewport",
            Tab::Inspector => "Inspector",
            Tab::Training => "Training",
        }
    }
}

/// The lesser of two floats; the second where they do not compare.
pub open spec fn lesser(a: u32, b: u32) -> u32 {
    if lt(a, b) {
        a
    } else {
        b
    }
}

/// The greater of two floats; the second where they do not compare.
pub open spec fn greater(a: u32, b: u32) -> u32 {
    if lt(b, a) {
        a
    } else {
        b
    }
}

/// Bits of positive infinity.
pub const INFINITY: u32 = 0x7f80_0000;

/// Bits of negative infinity.
pub const NEG_INFINITY: u32 = 0xff80_0000;

/// The lower corner of the first `k` points' bounding box.
pub open spec fn low_corner(ps: Seq<Vec3>, k: int) -> Vec3
    decreases k,
{
    if k <= 0 {
        Vec3 { x: INFINITY, y: INFINITY, z: INFINITY }
    } else {
        let c = low_corner(ps, k - 1);
        let p = ps[k - 1];
        Vec3 { x: lesser(c.x, p.x), y: lesser(c.y, p.y), z: lesser(c.z, p.z) }
    }
}

/// The upper corner of the first `k` points' bounding box.
pub open spec fn high_corner(ps: Seq<Vec3>, k: int) -> Vec3
    decreases k,
{
    if k <= 0 {
        Vec3 { x: NEG_INFINITY, y: NEG_INFINITY, z: NEG_INFINITY }
    } else {
        let c = high_corner(ps, k - 1);
        let p = ps[k - 1];
        Vec3 { x: greater(c.x, p.x), y: greater(c.y, p.y), z: greater(c.z, p.z) }
    }
}

fn lesser_bits(a: u32, b: u32) -> (r: u32)
    ensures
        r == lesser(a, b),
{
    if less(a, b) {
        a
    } else {
        b
    }
}

fn greater_bits(a: u32, b: u32) -> (r: u32)
    ensures
        r == greater(a, b),
{
    if less(b, a) {
        a
    } else {
        b
    }
}

/// The corners of the bounding box of `positions`, if there are any.
pub fn bounding_box(positions: &[Vec3]) -> (corners: Option<(Vec3, Vec3)>)
    ensures
        corners == if positions.len() == 0 {
            None
        } else {
            Some(
                (
                    low_corner(positions@, positions.len() as int),
                    high_corner(positions@, positions.len() as int),
                ),
            )
        },
{
    if positions.len() == 0 {
        return None;
    }
    let mut low: Vec3 = Vec3::new(INFINITY, INFINITY, INFINITY);
    let mut high: Vec3 = Vec3::new(NEG_INFINITY, NEG_INFINITY, NEG_INFINITY);
    let mut i: usize = 0;
    while i < positions.len()
        invariant
            i <= positions.len(),
            low == low_corner(positions@, i as int),
            high == high_corner(positions@, i as int),
        decreases positions.len() - i,
    {
        let p: Vec3 = positions[i];
        low = Vec3::new(lesser_bits(low.x, p.x), lesser_bits(low.y, p.y), lesser_bits(low.z, p.z));
        high =
        Vec3::new(
            greater_bits(high.x, p.x),
            greater_bits(high.y, p.y),
            greater_bits(high.z, p.z),
        );
        i = i + 1;
    }
    Some((low, high))
}

/// Whether no component is a NaN.
pub open spec fn is_number(p: Vec3) -> bool {
    !is_nan(p.x) && !is_nan(p.y) && !is_nan(p.z)
}

/// Componentwise `<=`.
pub open spec fn below(a: Vec3, b: Vec3) -> bool {
    le(a.x, b.x) && le(a.y, b.y) && le(a.z, b.z)
}

/// The bounding box of points without NaNs contains each of them, and lies in
/// every box that does.
pub proof fn law_bounding_box_is_tight(ps: Seq<Vec3>, k: int, low: Vec3, high: Vec3)
    requires
        0 <= k <= ps.len(),
        forall|i: int| 0 <= i < ps.len() ==> is_number(#[trigger] ps[i]),
        is_number(low),
        is_number(high),
    ensures
        is_number(low_corner(ps, k)),
        is_number(high_corner(ps, k)),
        forall|i: int|
            0 <= i < k ==> below(low_corner(ps, k), #[trigger] ps[i]) && below(
                ps[i],
                high_corner(ps, k),
            ),
        (forall|i: int| 0 <= i < k ==> below(low, #[trigger] ps[i]) && below(ps[i], high)) ==> below(
            low,
            low_corner(ps, k),
        ) && below(high_corner(ps, k), high),
    decreases k,
{
    if k > 0 {
        law_bounding_box_is_tight(ps, k - 1, low, high);
        assert(is_number(ps[k - 1]));
    }
}

/// A key that goes up or down changes that key and nothing else.
pub proof fn law_key_changes_itself_only(input: InputState, key: Key, pressed: bool)
    ensures
        ({
            let after = input.after(ViewEvent::Keyboard { key, pressed, consumed: false });
            &&& after.w == if key is W { pressed } else { input.w }
            &&& after.a == if key is A { pressed } else { input.a }
            &&& after.s == if key is S { pressed } else { input.s }
            &&& after.d == if key is D { pressed } else { input.d }
            &&& after.q == if key is Q { pressed } else { input.q }
            &&& after.e == if key is E { pressed } else { input.e }
            &&& after.lmb == input.lmb && after.rmb == input.rmb
            &&& after.last_x == input.last_x && after.last_y == input.last_y
        }),
{
}

/// A mouse button that goes up or down changes that button. The cursor is
/// forgotten where the left button goes up, and where the right one goes up
/// while the left one is not down; otherwise it and all keys stay.
pub proof fn law_button_changes_itself_only(input: InputState, button: Button, pressed: bool)
    ensures
        ({
            let after = input.after(ViewEvent::MouseInput { button, pressed, captured: false });
            let forgets = !pressed && (button is Left || (button is Right && !input.lmb));
            &&& after.lmb == if button is Left { pressed } else { input.lmb }
            &&& after.rmb == if button is Right { pressed } else { input.rmb }
            &&& after.last_x == if forgets { 0 } else { input.last_x }
            &&& after.last_y == if forgets { 0 } else { input.last_y }
            &&& after.w == input.w && after.a == input.a && after.s == input.s
            &&& after.d == input.d && after.q == input.q && after.e == input.e
        }),
{
}

/// The cursor's position is remembered while a button is down, and nothing else
/// changes with it. Events that are neither key, button nor cursor change
/// nothing.
pub proof fn law_cursor_is_remembered_while_dragging(input: InputState, x: u64, y: u64, event: ViewEvent)
    ensures
        ({
            let after = input.after(ViewEvent::CursorMoved { x, y, captured: false });
            let drags = input.lmb || input.rmb;
            &&& after.last_x == if drags { x } else { input.last_x }
            &&& after.last_y == if drags { y } else { input.last_y }
            &&& after.lmb == input.lmb && after.rmb == input.rmb
            &&& after.w == input.w && after.a == input.a && after.s == input.s
            &&& after.d == input.d && after.q == input.q && after.e == input.e
        }),
        !(event is Keyboard || event is MouseInput || event is CursorMoved) ==> input.after(event)
            == input,
{
}

/// When the viewer does what. It exits when the window closes or escape goes
/// down, resizes to a window that is not empty, zooms with the wheel and draws
/// when asked to. A drag turns with the left button down, else shifts with the
/// right one down, from where the cursor was last seen, if anywhere.
pub proof fn law_actions(input: InputState, event: ViewEvent)
    ensures
        input.action(event) is Exit <==> event is CloseRequested || (event
            matches ViewEvent::Keyboard { key, pressed, consumed } && key is Escape && pressed
            && !consumed),
        input.action(event) is Resize <==> (event matches ViewEvent::Resized { width, height }
            && width > 0 && height > 0),
        event matches ViewEvent::Resized { width, height } ==> (width > 0 && height > 0
            ==> input.action(event) == (ViewAction::Resize { width, height })),
        input.action(event) is Zoom <==> (event matches ViewEvent::MouseWheel { captured }
            && !captured),
        input.action(event) is Draw <==> event is RedrawRequested,
        input.action(event) is Orbit <==> (event
            matches ViewEvent::CursorMoved { captured, .. } && !captured && input.lmb && !(is_zero(
            input.last_x,
        ) && is_zero(input.last_y))),
        input.action(event) is Pan <==> (event matches ViewEvent::CursorMoved { captured, .. }
            && !captured && input.rmb && !input.lmb && !(is_zero(input.last_x) && is_zero(
            input.last_y,
        ))),
        input.action(event) matches ViewAction::Orbit { from_x, from_y } ==> from_x
            == input.last_x && from_y == input.last_y,
        input.action(event) matches ViewAction::Pan { from_x, from_y } ==> from_x == input.last_x
            && from_y == input.last_y,
{
}

/// A double-precision pattern is zero where all its bits but the sign are.
pub proof fn law_zero_patterns(bits: u64)
    ensures
        is_zero(bits) <==> bits & 0x7fff_ffff_ffff_ffff == 0,
{
    assert((bits == 0 || bits == 0x8000_0000_0000_0000) <==> bits & 0x7fff_ffff_ffff_ffff == 0)
        by (bit_vector);
}

/// Rank of a step in the order in which steps apply.
pub open spec fn step_rank(step: FlyStep) -> int {
    match step {
        FlyStep::Forward => 0,
        FlyStep::Back => 1,
        FlyStep::Right => 2,
        FlyStep::Left => 3,
        FlyStep::Up => 4,
        FlyStep::Down => 5,
    }
}

/// Each key asks for one step: W forward, S back, D right, A left, E up and Q
/// down. A step is taken exactly where its key is down, and steps apply in
/// that order, none twice.
pub proof fn law_each_key_is_one_step(input: InputState, i: int, j: int)
    ensures
        input.flight().contains(FlyStep::Forward) == input.w,
        input.flight().contains(FlyStep::Back) == input.s,
        input.flight().contains(FlyStep::Right) == input.d,
        input.flight().contains(FlyStep::Left) == input.a,
        input.flight().contains(FlyStep::Up) == input.e,
        input.flight().contains(FlyStep::Down) == input.q,
        0 <= i < j < input.flight().len() ==> step_rank(input.flight()[i]) < step_rank(
            input.flight()[j],
        ),
{
    let f = step_if(input.w, FlyStep::Forward);
    let fb = f + step_if(input.s, FlyStep::Back);
    let fbr = fb + step_if(input.d, FlyStep::Right);
    let fbrl = fbr + step_if(input.a, FlyStep::Left);
    let fbrlu = fbrl + step_if(input.e, FlyStep::Up);
    lemma_step_appended(Seq::empty(), input.w, FlyStep::Forward);
    assert(Seq::<FlyStep>::empty() + f =~= f);
    lemma_step_appended(f, input.s, FlyStep::Back);
    lemma_step_appended(fb, input.d, FlyStep::Right);
    lemma_step_appended(fbr, input.a, FlyStep::Left);
    lemma_step_appended(fbrl, input.e, FlyStep::Up);
    lemma_step_appended(fbrlu, input.q, FlyStep::Down);
    assert(input.flight() == fbrlu + step_if(input.q, FlyStep::Down));
}

/// Steps of rank below `rank`, in order.
spec fn steps_below(steps: Seq<FlyStep>, rank: int) -> bool {
    &&& forall|i: int| 0 <= i < steps.len() ==> step_rank(#[trigger] steps[i]) < rank
    &&& forall|i: int, j: int|
        0 <= i < j < steps.len() ==> step_rank(#[trigger] steps[i]) < step_rank(
            #[trigger] steps[j],
        )
}

proof fn lemma_step_appended(steps: Seq<FlyStep>, down: bool, step: FlyStep)
    requires
        steps_below(steps, step_rank(step)),
    ensures
        steps_below(steps + step_if(down, step), step_rank(step) + 1),
        (steps + step_if(down, step)).contains(step) == down,
        forall|other: FlyStep|
            other != step ==> #[trigger] (steps + step_if(down, step)).contains(other)
                == steps.contains(other),
{
    let all = steps + step_if(down, step);
    if down {
        assert(all[steps.len() as int] == step);
    } else {
        assert(all =~= steps);
    }
    assert forall|other: FlyStep| other != step implies #[trigger] all.contains(other)
        == steps.contains(other) by {
        if steps.contains(other) {
            let i = choose|i: int| 0 <= i < steps.len() && steps[i] == other;
            assert(all[i] == other);
        }
        if all.contains(other) {
            let i = choose|i: int| 0 <= i < all.len() && all[i] == other;
            assert(steps[i] == other);
        }
    }
    if all.contains(step) {
        let i = choose|i: int| 0 <= i < all.len() && all[i] == step;
        if i < steps.len() {
            assert(step_rank(steps[i]) < step_rank(step));
        }
    }
}

/// Of two numbers the lesser is at most both and the greater at least both,
/// and each is one of them. Where one is no number, both are the second.
pub proof fn law_lesser_and_greater(a: u32, b: u32)
    ensures
        lesser(a, b) == a || lesser(a, b) == b,
        greater(a, b) == a || greater(a, b) == b,
        !is_nan(a) && !is_nan(b) ==> le(lesser(a, b), a) && le(lesser(a, b), b),
        !is_nan(a) && !is_nan(b) ==> le(a, greater(a, b)) && le(b, greater(a, b)),
        is_nan(a) || is_nan(b) ==> lesser(a, b) == b && greater(a, b) == b,
{
}

/// An extent is never empty and otherwise as it is.
pub proof fn law_positive(a: u32)
    ensures
        positive(a) >= 1,
        a >= 1 ==> positive(a) == a,
        a == 0 ==> positive(a) == 1,
{
}

/// A viewport side is 64 while no more is available, and otherwise the fewest
/// whole tiles of sixteen pixels that hold what is.
pub proof fn law_viewport_side(side: u32, available: u32)
    requires
        is_viewport_side(side, available),
    ensures
        available <= 64 ==> side == 64,
        available > 64 ==> available <= side < available + 16,
        exists|tiles: int| side == #[trigger] (16 * tiles),
{
    assert(side == 16 * (side as int / 16));
}

} // verus!
