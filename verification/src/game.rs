//! The world: its bodies, what the pointer and the keys do to them, and the
//! step that moves them all.

use vstd::prelude::*;
use crate::body::{Body, FieldScalars, Tugger, VelocityStatic, VelocityStatics};
use crate::vector::{VecLa, VecXy};

verus! {

/// A button of the pointer.
#[derive(Clone, Copy, Debug, PartialEq, Eq, Structural)]
pub enum MouseButton {
    Left,
    Other,
}

/// A key of the keyboard.
#[derive(Clone, Copy, Debug, PartialEq, Eq, Structural)]
pub enum KeyCode {
    Escape,
    Space,
    Other,
}

/// What the caller is to do after a key went down.
#[derive(Clone, Copy, Debug, PartialEq, Eq, Structural)]
pub enum KeyAction {
    Continue,
    Quit,
}

/// The state of the world: the bodies, whose number never changes, and the
/// acceleration that pulls on all of them alike.
pub struct MyGame {
    pub bodies: Vec<Body>,
    pub gravity: VecXy,
}

/// The first body of the opening scene.
pub open spec fn spec_first_body() -> Body {
    Body {
        statics: VelocityStatics {
            xy: VelocityStatic {
                acc_scalar: 3_000,
                linear_friction_scalar: 990_000,
                constant_friction: 1_000,
            },
            angle: VelocityStatic {
                acc_scalar: 90,
                linear_friction_scalar: 990_000,
                constant_friction: 100,
            },
        },
        pos: FieldScalars { xy: VecXy { x: 300_000_000, y: 300_000_000 }, angle: 1_000_000 },
        vel: FieldScalars::spec_zero(),
        scale: VecXy { x: 50_000_000, y: 50_000_000 },
        tuggers: [
            None,
            Some(
                Tugger {
                    relative_body_handle_xy: VecLa { length: 7_000_000, angle: 2_000_000 },
                    world_dest: VecXy { x: 300_000_000, y: 280_000_000 },
                },
            ),
            Some(
                Tugger {
                    relative_body_handle_xy: VecLa { length: 9_000_000, angle: 2_400_000 },
                    world_dest: VecXy { x: 400_000_000, y: 220_000_000 },
                },
            ),
        ],
        max_tug_handle_distance: 35_000_000,
    }
}

/// The second body of the opening scene.
pub open spec fn spec_second_body() -> Body {
    Body {
        statics: VelocityStatics {
            xy: VelocityStatic {
                acc_scalar: 2_000,
                linear_friction_scalar: 990_000,
                constant_friction: 1_000,
            },
            angle: VelocityStatic {
                acc_scalar: 70,
                linear_friction_scalar: 990_000,
                constant_friction: 100,
            },
        },
        pos: FieldScalars { xy: VecXy { x: 300_000_000, y: 300_000_000 }, angle: 1_000_000 },
        vel: FieldScalars::spec_zero(),
        scale: VecXy { x: 80_000_000, y: 30_000_000 },
        tuggers: [
            None,
            Some(
                Tugger {
                    relative_body_handle_xy: VecLa { length: 35_000_000, angle: 300_000 },
                    world_dest: VecXy { x: 450_000_000, y: 100_000_000 },
                },
            ),
            Some(
                Tugger {
                    relative_body_handle_xy: VecLa { length: 30_000_000, angle: 3_100_000 },
                    world_dest: VecXy { x: 510_000_000, y: 400_000_000 },
                },
            ),
        ],
        max_tug_handle_distance: 80_000_000,
    }
}

fn first_body() -> (r: Body)
    ensures
        r == spec_first_body(),
        r.wf(),
{
    Body {
        statics: VelocityStatics {
            xy: VelocityStatic {
                acc_scalar: 3_000,
                linear_friction_scalar: 990_000,
                constant_friction: 1_000,
            },
            angle: VelocityStatic {
                acc_scalar: 90,
                linear_friction_scalar: 990_000,
                constant_friction: 100,
            },
        },
        pos: FieldScalars { xy: VecXy { x: 300_000_000, y: 300_000_000 }, angle: 1_000_000 },
        vel: FieldScalars::zero(),
        scale: VecXy { x: 50_000_000, y: 50_000_000 },
        tuggers: [
            None,
            Some(
                Tugger {
                    relative_body_handle_xy: VecLa { length: 7_000_000, angle: 2_000_000 },
                    world_dest: VecXy { x: 300_000_000, y: 280_000_000 },
                },
            ),
            Some(
                Tugger {
                    relative_body_handle_xy: VecLa { length: 9_000_000, angle: 2_400_000 },
                    world_dest: VecXy { x: 400_000_000, y: 220_000_000 },
                },
            ),
        ],
        max_tug_handle_distance: 35_000_000,
    }
}

fn second_body() -> (r: Body)
    ensures
        r == spec_second_body(),
        r.wf(),
{
    Body {
        statics: VelocityStatics {
            xy: VelocityStatic {
                acc_scalar: 2_000,
                linear_friction_scalar: 990_000,
                constant_friction: 1_000,
            },
            angle: VelocityStatic {
                acc_scalar: 70,
                linear_friction_scalar: 990_000,
                constant_friction: 100,
            },
        },
        pos: FieldScalars { xy: VecXy { x: 300_000_000, y: 300_000_000 }, angle: 1_000_000 },
        vel: FieldScalars::zero(),
        scale: VecXy { x: 80_000_000, y: 30_000_000 },
        tuggers: [
            None,
            Some(
                Tugger {
                    relative_body_handle_xy: VecLa { length: 35_000_000, angle: 300_000 },
                    world_dest: VecXy { x: 450_000_000, y: 100_000_000 },
                },
            ),
            Some(
                Tugger {
                    relative_body_handle_xy: VecLa { length: 30_000_000, angle: 3_100_000 },
                    world_dest: VecXy { x: 510_000_000, y: 400_000_000 },
                },
            ),
        ],
        max_tug_handle_distance: 80_000_000,
    }
}

impl MyGame {
    /// Whether every body is such as a body can be.
    pub open spec fn wf(self) -> bool {
        forall|i: int| 0 <= i < self.bodies@.len() ==> (#[trigger] self.bodies@[i]).wf()
    }

    /// The opening scene: two bodies at one place, each with two fixed ropes
    /// and no pull of the pointer, under a gravity along the second axis.
    pub fn new() -> (r: MyGame)
        ensures
            r.bodies@ == seq![spec_first_body(), spec_second_body()],
            r.gravity == (VecXy { x: 0, y: 150_000 }),
            r.wf(),
    {
        let mut bodies: Vec<Body> = Vec::new();
        bodies.push(first_body());
        bodies.push(second_body());
        MyGame { bodies, gravity: VecXy { x: 0, y: 150_000 } }
    }

    /// A world of the given bodies under the given gravity.
    pub fn with_bodies(bodies: Vec<Body>, gravity: VecXy) -> (r: MyGame)
        requires
            forall|i: int| 0 <= i < bodies@.len() ==> (#[trigger] bodies@[i]).wf(),
        ensures
            r.bodies@ == bodies@,
            r.gravity == gravity,
            r.wf(),
    {
        MyGame { bodies, gravity }
    }

    /// The bodies one step later: each body moved on by itself.
    pub open spec fn spec_update(self) -> Seq<Body> {
        Seq::new(self.bodies@.len(), |i: int| self.bodies@[i].spec_step(self.gravity))
    }

    /// Moves every body on by one step, each by itself.
    pub fn update(&mut self)
        requires
            old(self).wf(),
        ensures
            final(self).bodies@ == old(self).spec_update(),
            final(self).bodies@.len() == old(self).bodies@.len(),
            forall|i: int|
                0 <= i < old(self).bodies@.len() ==> #[trigger] final(self).bodies@[i] == old(
                    self,
                ).bodies@[i].spec_step(old(self).gravity),
            final(self).gravity == old(self).gravity,
            final(self).wf(),
    {
        let n: usize = self.bodies.len();
        let mut i: usize = 0;
        while i < n
            invariant
                0 <= i <= n,
                n == self.bodies@.len(),
                n == old(self).bodies@.len(),
                self.gravity == old(self).gravity,
                forall|j: int|
                    0 <= j < i ==> #[trigger] self.bodies@[j] == old(self).bodies@[j].spec_step(
                        self.gravity,
                    ),
                forall|j: int| 0 <= j < i ==> (#[trigger] self.bodies@[j]).wf(),
                forall|j: int| i <= j < n ==> #[trigger] self.bodies@[j] == old(self).bodies@[j],
                old(self).wf(),
            decreases n - i,
        {
            let mut body: Body = self.bodies[i];
            body.step(self.gravity);
            self.bodies.set(i, body);
            i = i + 1;
        }
    }

    /// A button of the pointer went down at `(x, y)`: for the left button
    /// every body within whose reach the point lies takes up the pointer's
    /// pull; another button does nothing.
    pub fn mouse_button_down_event(&mut self, button: MouseButton, x: i64, y: i64)
        requires
            old(self).wf(),
        ensures
            final(self).bodies@.len() == old(self).bodies@.len(),
            forall|i: int|
                0 <= i < old(self).bodies@.len() ==> #[trigger] final(self).bodies@[i] == (
                if button == MouseButton::Left {
                    old(self).bodies@[i].spec_pointer_down(VecXy { x, y })
                } else {
                    old(self).bodies@[i]
                }),
            final(self).gravity == old(self).gravity,
            final(self).wf(),
    {
        match button {
            MouseButton::Left => {
                let mouse_xy = VecXy::new(x, y);
                let n: usize = self.bodies.len();
                let mut i: usize = 0;
                while i < n
                    invariant
                        0 <= i <= n,
                        n == self.bodies@.len(),
                        n == old(self).bodies@.len(),
                        self.gravity == old(self).gravity,
                        mouse_xy == (VecXy { x, y }),
                        forall|j: int|
                            0 <= j < i ==> #[trigger] self.bodies@[j] == old(
                                self,
                            ).bodies@[j].spec_pointer_down(mouse_xy),
                        forall|j: int| 0 <= j < i ==> (#[trigger] self.bodies@[j]).wf(),
                        forall|j: int|
                            i <= j < n ==> #[trigger] self.bodies@[j] == old(self).bodies@[j],
                        old(self).wf(),
                    decreases n - i,
                {
                    let mut body: Body = self.bodies[i];
                    body.pointer_down(mouse_xy);
                    self.bodies.set(i, body);
                    i = i + 1;
                }
            },
            MouseButton::Other => {},
        }
    }

    /// A button of the pointer went up: for the left button every body lets
    /// the pointer's pull go; another button does nothing.
    pub fn mouse_button_up_event(&mut self, button: MouseButton)
        requires
            old(self).wf(),
        ensures
            final(self).bodies@.len() == old(self).bodies@.len(),
            forall|i: int|
                0 <= i < old(self).bodies@.len() ==> #[trigger] final(self).bodies@[i] == (
                if button == MouseButton::Left {
                    old(self).bodies@[i].spec_pointer_up()
                } else {
                    old(self).bodies@[i]
                }),
            final(self).gravity == old(self).gravity,
            final(self).wf(),
    {
        match button {
            MouseButton::Left => {
                let n: usize = self.bodies.len();
                let mut i: usize = 0;
                while i < n
                    invariant
                        0 <= i <= n,
                        n == self.bodies@.len(),
                        n == old(self).bodies@.len(),
                        self.gravity == old(self).gravity,
                        forall|j: int|
                            0 <= j < i ==> #[trigger] self.bodies@[j] == old(
                                self,
                            ).bodies@[j].spec_pointer_up(),
                        forall|j: int| 0 <= j < i ==> (#[trigger] self.bodies@[j]).wf(),
                        forall|j: int|
                            i <= j < n ==> #[trigger] self.bodies@[j] == old(self).bodies@[j],
                        old(self).wf(),
                    decreases n - i,
                {
                    let mut body: Body = self.bodies[i];
                    body.pointer_up();
                    self.bodies.set(i, body);
                    i = i + 1;
                }
            },
            MouseButton::Other => {},
        }
    }

    /// The pointer moved to `(x, y)`: every pull of the pointer follows it.
    pub fn mouse_motion_event(&mut self, x: i64, y: i64)
        requires
            old(self).wf(),
        ensures
            final(self).bodies@.len() == old(self).bodies@.len(),
            forall|i: int|
                0 <= i < old(self).bodies@.len() ==> #[trigger] final(self).bodies@[i] == old(
                    self,
                ).bodies@[i].spec_pointer_moved(VecXy { x, y }),
            final(self).gravity == old(self).gravity,
            final(self).wf(),
    {
        let mouse_xy = VecXy::new(x, y);
        let n: usize = self.bodies.len();
        let mut i: usize = 0;
        while i < n
            invariant
                0 <= i <= n,
                n == self.bodies@.len(),
                n == old(self).bodies@.len(),
                self.gravity == old(self).gravity,
                mouse_xy == (VecXy { x, y }),
                forall|j: int|
                    0 <= j < i ==> #[trigger] self.bodies@[j] == old(
                        self,
                    ).bodies@[j].spec_pointer_moved(mouse_xy),
                forall|j: int| 0 <= j < i ==> (#[trigger] self.bodies@[j]).wf(),
                forall|j: int| i <= j < n ==> #[trigger] self.bodies@[j] == old(self).bodies@[j],
                old(self).wf(),
            decreases n - i,
        {
            let mut body: Body = self.bodies[i];
            body.pointer_moved(mouse_xy);
            self.bodies.set(i, body);
            i = i + 1;
        }
    }

    /// Whether a key that went down changes the ropes: the space key does,
    /// unless it is only being held.
    pub open spec fn spec_mirrors(keycode: KeyCode, repeat: bool) -> bool {
        !repeat && keycode == KeyCode::Space
    }

    /// What the caller is to do after a key went down: the escape key ends
    /// the run, unless it is only being held.
    pub open spec fn spec_key_action(keycode: KeyCode, repeat: bool) -> KeyAction {
        if !repeat && keycode == KeyCode::Escape {
            KeyAction::Quit
        } else {
            KeyAction::Continue
        }
    }

    /// A key went down. A key that is only being held does nothing. The
    /// escape key asks the caller to end the run. The space key mirrors the
    /// fixed ropes of every body: each destination has its two coordinates
    /// exchanged. Any other key does nothing.
    pub fn key_down_event(&mut self, keycode: KeyCode, repeat: bool) -> (r: KeyAction)
        requires
            old(self).wf(),
        ensures
            r == Self::spec_key_action(keycode, repeat),
            final(self).bodies@.len() == old(self).bodies@.len(),
            !Self::spec_mirrors(keycode, repeat) ==> final(self).bodies@ == old(self).bodies@,
            Self::spec_mirrors(keycode, repeat) ==> forall|i: int|
                0 <= i < old(self).bodies@.len() ==> {
                    let before = old(self).bodies@[i];
                    let after = #[trigger] final(self).bodies@[i];
                    &&& after.statics == before.statics
                    &&& after.pos == before.pos
                    &&& after.vel == before.vel
                    &&& after.scale == before.scale
                    &&& after.max_tug_handle_distance == before.max_tug_handle_distance
                    &&& forall|k: int| 0 <= k < 3 ==> after.tuggers[k] == before.spec_mirrored_slot(k)
                },
            final(self).gravity == old(self).gravity,
            final(self).wf(),
    {
        if repeat {
            return KeyAction::Continue;
        }
        match keycode {
            KeyCode::Escape => KeyAction::Quit,
            KeyCode::Space => {
                let n: usize = self.bodies.len();
                let mut i: usize = 0;
                while i < n
                    invariant
                        0 <= i <= n,
                        n == self.bodies@.len(),
                        n == old(self).bodies@.len(),
                        self.gravity == old(self).gravity,
                        forall|j: int|
                            0 <= j < i ==> {
                                let before = old(self).bodies@[j];
                                let after = #[trigger] self.bodies@[j];
                                &&& after.statics == before.statics
                                &&& after.pos == before.pos
                                &&& after.vel == before.vel
                                &&& after.scale == before.scale
                                &&& after.max_tug_handle_distance == before.max_tug_handle_distance
                                &&& forall|k: int|
                                    0 <= k < 3 ==> after.tuggers[k] == before.spec_mirrored_slot(k)
                            },
                        forall|j: int| 0 <= j < i ==> (#[trigger] self.bodies@[j]).wf(),
                        forall|j: int| i <= j < n ==> #[trigger] self.bodies@[j] == old(self).bodies@[j],
                        old(self).wf(),
                    decreases n - i,
                {
                    let mut body: Body = self.bodies[i];
                    body.mirror_ropes();
                    self.bodies.set(i, body);
                    i = i + 1;
                }
                KeyAction::Continue
            },
            KeyCode::Other => KeyAction::Continue,
        }
    }
}

} // verus!
