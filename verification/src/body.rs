//! A rigid body, the pulls on it, and how a force at a point moves and turns it.

use vstd::prelude::*;
use vstd::array::spec_array_update;
use crate::scalar::{
    fix, in_range, mul_div, mul_fixed, neg_if, sat_add, spec_mul_div, spec_mul_fixed,
    spec_neg_if, spec_toward_zero, toward_zero_saturating, LIMIT, ONE,
};
use crate::vector::{VecLa, VecXy};

verus! {

/// A place and a heading; also a velocity or an acceleration of both.
#[derive(Clone, Copy, Debug, PartialEq, Eq, Structural)]
pub struct FieldScalars {
    pub xy: VecXy,
    pub angle: i64,
}

/// How one quantity of a body answers to force and to friction.
#[derive(Clone, Copy, Debug, PartialEq, Eq, Structural)]
pub struct VelocityStatic {
    /// The acceleration that a unit of force gives.
    pub acc_scalar: i64,
    /// The share of the velocity that one step leaves.
    pub linear_friction_scalar: i64,
    /// The speed that one step takes away, down to rest.
    pub constant_friction: i64,
}

/// The answers of a body's place and of its heading.
#[derive(Clone, Copy, Debug, PartialEq, Eq, Structural)]
pub struct VelocityStatics {
    pub xy: VelocityStatic,
    pub angle: VelocityStatic,
}

/// A pull on a body: the point of the body that is pulled, in the body's own
/// frame before it is turned, and the point of the world that it is pulled to.
#[derive(Clone, Copy, Debug, PartialEq, Eq, Structural)]
pub struct Tugger {
    pub relative_body_handle_xy: VecLa,
    pub world_dest: VecXy,
}

/// What a drawing of a pull needs: where the pull holds the body, in the
/// world, and the way from the pull's destination to that point.
#[derive(Clone, Copy, Debug, PartialEq, Eq, Structural)]
pub struct Rope {
    pub body_handle_xy: VecXy,
    pub rope_la: VecLa,
}

/// A shape of the world with its motion and the pulls on it. The first slot
/// holds the pull that follows the pointer; the others hold fixed ropes.
#[derive(Clone, Copy, Debug)]
pub struct Body {
    pub statics: VelocityStatics,
    pub pos: FieldScalars,
    pub vel: FieldScalars,
    pub scale: VecXy,
    pub tuggers: [Option<Tugger>; 3],
    pub max_tug_handle_distance: i64,
}

impl FieldScalars {
    /// Nothing: the origin, no motion, no acceleration.
    pub open spec fn spec_zero() -> FieldScalars {
        FieldScalars { xy: VecXy::spec_zero(), angle: 0 }
    }

    /// Whether every part lies within the scalar range.
    pub open spec fn in_range(self) -> bool {
        self.xy.in_range() && in_range(self.angle as int)
    }

    /// The sum with `other`, part by part.
    pub open spec fn spec_add(self, other: FieldScalars) -> FieldScalars {
        FieldScalars { xy: self.xy.spec_plus(other.xy), angle: fix(self.angle + other.angle) }
    }

    /// Nothing: the origin, no motion, no acceleration.
    pub fn zero() -> (r: Self)
        ensures
            r == Self::spec_zero(),
    {
        FieldScalars { xy: VecXy::zero(), angle: 0 }
    }

    /// The sum with `other`, part by part.
    pub fn add(self, other: Self) -> (r: Self)
        ensures
            r == self.spec_add(other),
            r.in_range(),
    {
        let mut sum = self;
        sum.add_from(&other);
        sum
    }

    /// Adds `other` to this value, part by part.
    pub fn add_from(&mut self, other: &Self)
        ensures
            *final(self) == old(self).spec_add(*other),
            final(self).in_range(),
    {
        self.xy = self.xy.plus(other.xy);
        self.angle = sat_add(self.angle, other.angle);
    }
}

impl Body {
    /// Whether the body's numbers are such as a body can have: a positive
    /// reach for pulls, within the scalar range, and every pull held within
    /// that reach.
    pub open spec fn wf(self) -> bool {
        &&& 0 < self.max_tug_handle_distance <= LIMIT
        &&& forall|i: int|
            0 <= i < 3 ==> (#[trigger] self.tuggers[i] matches Some(t) ==> 0
                <= t.relative_body_handle_xy.length <= self.max_tug_handle_distance)
    }

    /// Where the point `body_handle` of the body lies as seen from the body's
    /// centre, once the body is turned to its heading.
    pub open spec fn spec_xy_relative_handle(self, body_handle: VecLa) -> VecXy {
        body_handle.spec_to_xy().spec_rotated(self.pos.angle as int)
    }

    /// Where the point `body_handle` of the body lies in the world.
    pub open spec fn spec_absolute_handle(self, body_handle: VecLa) -> VecXy {
        self.spec_xy_relative_handle(body_handle).spec_plus(self.pos.xy)
    }

    /// The share of a force at `contact` that may turn the body: none at the
    /// centre, all of it at the full reach for pulls.
    pub open spec fn spec_rotatable_proportion(self, contact: VecXy) -> int {
        spec_mul_div(contact.spec_length(), ONE as int, self.max_tug_handle_distance as int)
    }

    /// The share of `force` at `contact` that may turn the body.
    pub open spec fn spec_rotatable_force(self, contact: VecXy, force: VecXy) -> VecXy {
        force.spec_scaled(self.spec_rotatable_proportion(contact))
    }

    /// The part of the rotatable share of `force` that points along `contact`;
    /// at the centre there is no such direction and no such part.
    pub open spec fn spec_rotatable_parallel(self, contact: VecXy, force: VecXy) -> VecXy {
        if contact == VecXy::spec_zero() {
            VecXy::spec_zero()
        } else {
            self.spec_rotatable_force(contact, force).spec_parallel(contact)
        }
    }

    /// The part of the rotatable share of `force` that points across `contact`.
    pub open spec fn spec_rotatable_perpendicular(self, contact: VecXy, force: VecXy) -> VecXy {
        self.spec_rotatable_force(contact, force).spec_minus(
            self.spec_rotatable_parallel(contact, force),
        )
    }

    /// The acceleration that the body takes from `force` applied at `contact`,
    /// a point given from the body's centre in world directions.
    ///
    /// The share of the force that cannot turn the body moves it as it is. Of
    /// the share that can, the part along `contact` moves the body, with that
    /// part's length in the direction of the whole share, and the part across
    /// `contact` turns it, counter-clockwise where it points to the left of
    /// `contact`.
    pub open spec fn spec_tug_acc(self, contact: VecXy, force: VecXy) -> FieldScalars {
        if force == VecXy::spec_zero() {
            FieldScalars::spec_zero()
        } else {
            let fr = self.spec_rotatable_force(contact, force);
            let fu = force.spec_minus(fr);
            let fr_parr = self.spec_rotatable_parallel(contact, force);
            let fr_perp = self.spec_rotatable_perpendicular(contact, force);
            FieldScalars {
                xy: fu.spec_plus(fr.spec_with_length(fr_parr.spec_length())).spec_scaled(
                    self.statics.xy.acc_scalar as int,
                ),
                angle: fix(
                    spec_neg_if(
                        spec_mul_fixed(self.statics.angle.acc_scalar as int, fr_perp.spec_length()),
                        contact.spec_perp_dot(fr_perp) < 0,
                    ),
                ),
            }
        }
    }

    /// The acceleration that the body takes from `force` applied at `contact`.
    /// No force gives no acceleration, wherever it is applied; any other
    /// force is to be applied within the body's reach for pulls.
    pub fn tug_acc(&self, contact: VecXy, force: VecXy) -> (r: FieldScalars)
        requires
            force != VecXy::spec_zero() ==> self.max_tug_handle_distance > 0 && contact.in_range()
                && contact.spec_length() <= self.max_tug_handle_distance,
        ensures
            r == self.spec_tug_acc(contact, force),
            force == VecXy::spec_zero() ==> r == FieldScalars::spec_zero(),
            r.in_range(),
    {
        if force.x == 0 && force.y == 0 {
            return FieldScalars::zero();
        }
        let rotatable_proportion: i64 = mul_div(
            contact.length(),
            ONE,
            self.max_tug_handle_distance,
        );
        let fr = force.scaled(rotatable_proportion);
        let fu = force.minus(fr);
        let fr_parr = if contact.x == 0 && contact.y == 0 {
            VecXy::zero()
        } else {
            fr.split_parr_perp(contact).0
        };
        let fr_perp = fr.minus(fr_parr);
        let turn: i64 = mul_fixed(self.statics.angle.acc_scalar, fr_perp.length());
        FieldScalars {
            xy: fu.plus(fr.with_length(fr_parr.length())).scaled(self.statics.xy.acc_scalar),
            angle: neg_if(turn, contact.perp_dot(fr_perp) < 0),
        }
    }

    /// The body one step later under the acceleration `acc`: the velocity
    /// takes the acceleration, the place takes the new velocity, and then the
    /// velocity is slowed, first by its share and then by the constant.
    pub open spec fn spec_integrate(self, acc: FieldScalars) -> Body {
        let vel = self.vel.spec_add(acc);
        let slowed = FieldScalars {
            xy: vel.xy.spec_scaled(self.statics.xy.linear_friction_scalar as int),
            angle: fix(spec_mul_fixed(vel.angle as int, self.statics.angle.linear_friction_scalar as int)),
        };
        Body {
            pos: self.pos.spec_add(vel),
            vel: FieldScalars {
                xy: slowed.xy.spec_reduce_length(self.statics.xy.constant_friction as int),
                angle: fix(
                    spec_toward_zero(slowed.angle as int, self.statics.angle.constant_friction as int),
                ),
            },
            ..self
        }
    }

    /// The acceleration that the pull `tugger` gives the body: the pull's
    /// force is the way from the pulled point to the point it is pulled to.
    pub open spec fn spec_tugger_acc(self, tugger: Tugger) -> FieldScalars {
        let handle = self.spec_xy_relative_handle(tugger.relative_body_handle_xy);
        self.spec_tug_acc(handle, tugger.world_dest.spec_minus(handle.spec_plus(self.pos.xy)))
    }

    /// The sum of the accelerations from the pulls in the first `n` slots,
    /// added up in the order of the slots.
    pub open spec fn spec_tugs_acc(self, n: int) -> FieldScalars
        decreases n,
    {
        if n <= 0 {
            FieldScalars::spec_zero()
        } else {
            match self.tuggers[n - 1] {
                Some(tugger) => self.spec_tugs_acc(n - 1).spec_add(self.spec_tugger_acc(tugger)),
                None => self.spec_tugs_acc(n - 1),
            }
        }
    }

    /// The body one step later, pulled by all its pulls and by `gravity`.
    pub open spec fn spec_step(self, gravity: VecXy) -> Body {
        let tugs = self.spec_tugs_acc(3);
        self.spec_integrate(FieldScalars { xy: tugs.xy.spec_plus(gravity), angle: tugs.angle })
    }

    /// The body `n` steps later.
    pub open spec fn spec_steps(self, gravity: VecXy, n: nat) -> Body
        decreases n,
    {
        if n == 0 {
            self
        } else {
            self.spec_step(gravity).spec_steps(gravity, (n - 1) as nat)
        }
    }

    /// The acceleration that the pull `tugger` gives the body.
    pub fn tugger_acc(&self, tugger: &Tugger) -> (r: FieldScalars)
        requires
            0 < self.max_tug_handle_distance <= LIMIT,
            0 <= tugger.relative_body_handle_xy.length <= self.max_tug_handle_distance,
        ensures
            r == self.spec_tugger_acc(*tugger),
            r.in_range(),
    {
        let xy_relative_handle = self.xy_relative_handle(tugger.relative_body_handle_xy);
        proof {
            crate::vector::lemma_to_xy_never_longer(tugger.relative_body_handle_xy);
            crate::vector::lemma_rotated_never_longer(
                tugger.relative_body_handle_xy.spec_to_xy(),
                self.pos.angle as int,
            );
        }
        let force = tugger.world_dest.minus(xy_relative_handle.plus(self.pos.xy));
        self.tug_acc(xy_relative_handle, force)
    }

    /// Moves the body on by one step: gathers the accelerations of its pulls,
    /// adds `gravity`, and integrates.
    pub fn step(&mut self, gravity: VecXy)
        requires
            old(self).wf(),
        ensures
            *final(self) == old(self).spec_step(gravity),
            final(self).wf(),
    {
        let mut acc = FieldScalars::zero();
        let mut i: usize = 0;
        while i < 3
            invariant
                0 <= i <= 3,
                self.wf(),
                *self == *old(self),
                acc == self.spec_tugs_acc(i as int),
            decreases 3 - i,
        {
            match self.tuggers[i] {
                Some(tugger) => {
                    acc = acc.add(self.tugger_acc(&tugger));
                },
                None => {},
            }
            i = i + 1;
        }
        acc.xy = acc.xy.plus(gravity);
        self.integrate(acc);
    }

    /// The pull that a pointer at `point` would make: the pointed-at place of
    /// the body in the body's own frame, pulled to `point`.
    pub open spec fn spec_pointer_tugger(self, point: VecXy) -> Tugger {
        Tugger {
            relative_body_handle_xy: VecLa::spec_from_xy(
                point.spec_minus(self.pos.xy).spec_rotated(fix(-self.pos.angle) as int),
            ),
            world_dest: point,
        }
    }

    /// The body after the pointer went down at `point`: where the point lies
    /// within the reach for pulls, the first slot holds the pointer's pull;
    /// elsewhere nothing changes.
    pub open spec fn spec_pointer_down(self, point: VecXy) -> Body {
        let tugger = self.spec_pointer_tugger(point);
        if tugger.relative_body_handle_xy.length <= self.max_tug_handle_distance {
            Body { tuggers: spec_array_update(self.tuggers, 0, Some(tugger)), ..self }
        } else {
            self
        }
    }

    /// The body after the pointer went up: the first slot is empty.
    pub open spec fn spec_pointer_up(self) -> Body {
        Body { tuggers: spec_array_update(self.tuggers, 0, None), ..self }
    }

    /// The body after the pointer moved to `point`: a pull in the first slot
    /// now pulls to `point`.
    pub open spec fn spec_pointer_moved(self, point: VecXy) -> Body {
        match self.tuggers[0] {
            Some(tugger) => Body {
                tuggers: spec_array_update(
                    self.tuggers,
                    0,
                    Some(Tugger { world_dest: point, ..tugger }),
                ),
                ..self
            },
            None => self,
        }
    }

    /// What slot `i` holds once the fixed ropes are mirrored: a rope's
    /// destination has its two coordinates exchanged; the first slot and an
    /// empty slot stay as they are.
    pub open spec fn spec_mirrored_slot(self, i: int) -> Option<Tugger> {
        match self.tuggers[i] {
            Some(tugger) if i >= 1 => Some(
                Tugger {
                    world_dest: VecXy { x: tugger.world_dest.y, y: tugger.world_dest.x },
                    ..tugger
                },
            ),
            _ => self.tuggers[i],
        }
    }

    /// Takes up the pointer's pull where the pointer went down within reach.
    pub fn pointer_down(&mut self, point: VecXy)
        requires
            old(self).wf(),
        ensures
            *final(self) == old(self).spec_pointer_down(point),
            final(self).wf(),
    {
        let turned_back: i64 = neg_if(self.pos.angle, true);
        let relative_body_handle_xy = VecLa::from_xy(
            point.minus(self.pos.xy).rotated(turned_back),
        );
        if relative_body_handle_xy.length <= self.max_tug_handle_distance {
            self.tuggers[0] = Some(Tugger { relative_body_handle_xy, world_dest: point });
        }
    }

    /// Lets the pointer's pull go.
    pub fn pointer_up(&mut self)
        requires
            old(self).wf(),
        ensures
            *final(self) == old(self).spec_pointer_up(),
            final(self).wf(),
    {
        self.tuggers[0] = None;
    }

    /// Makes the pointer's pull, if there is one, pull to `point`.
    pub fn pointer_moved(&mut self, point: VecXy)
        requires
            old(self).wf(),
        ensures
            *final(self) == old(self).spec_pointer_moved(point),
            final(self).wf(),
    {
        match self.tuggers[0] {
            Some(tugger) => {
                self.tuggers[0] = Some(
                    Tugger {
                        relative_body_handle_xy: tugger.relative_body_handle_xy,
                        world_dest: point,
                    },
                );
            },
            None => {},
        }
    }

    /// Exchanges the two coordinates of the destination of every fixed rope.
    pub fn mirror_ropes(&mut self)
        requires
            old(self).wf(),
        ensures
            forall|i: int| 0 <= i < 3 ==> final(self).tuggers[i] == old(self).spec_mirrored_slot(i),
            final(self).statics == old(self).statics,
            final(self).pos == old(self).pos,
            final(self).vel == old(self).vel,
            final(self).scale == old(self).scale,
            final(self).max_tug_handle_distance == old(self).max_tug_handle_distance,
            final(self).wf(),
    {
        let mut i: usize = 1;
        while i < 3
            invariant
                1 <= i <= 3,
                self.wf(),
                self.statics == old(self).statics,
                self.pos == old(self).pos,
                self.vel == old(self).vel,
                self.scale == old(self).scale,
                self.max_tug_handle_distance == old(self).max_tug_handle_distance,
                forall|j: int| 0 <= j < i ==> self.tuggers[j] == old(self).spec_mirrored_slot(j),
                forall|j: int| i <= j < 3 ==> self.tuggers[j] == old(self).tuggers[j],
            decreases 3 - i,
        {
            match self.tuggers[i] {
                Some(tugger) => {
                    self.tuggers[i] = Some(
                        Tugger {
                            relative_body_handle_xy: tugger.relative_body_handle_xy,
                            world_dest: VecXy::new(tugger.world_dest.y, tugger.world_dest.x),
                        },
                    );
                },
                None => {},
            }
            i = i + 1;
        }
    }

    /// The rope of the pull `tugger` as it is to be drawn.
    pub open spec fn spec_rope(self, tugger: Tugger) -> Rope {
        let body_handle_xy = self.spec_absolute_handle(tugger.relative_body_handle_xy);
        Rope {
            body_handle_xy,
            rope_la: VecLa::spec_from_xy(body_handle_xy.spec_minus(tugger.world_dest)),
        }
    }

    /// The ropes of the pulls in the first `n` slots, in the order of the
    /// slots; an empty slot has none.
    pub open spec fn spec_ropes(self, n: int) -> Seq<Rope>
        decreases n,
    {
        if n <= 0 {
            Seq::empty()
        } else {
            match self.tuggers[n - 1] {
                Some(tugger) => self.spec_ropes(n - 1).push(self.spec_rope(tugger)),
                None => self.spec_ropes(n - 1),
            }
        }
    }

    /// The rope of the pull `tugger` as it is to be drawn.
    pub fn rope(&self, tugger: &Tugger) -> (r: Rope)
        ensures
            r == self.spec_rope(*tugger),
    {
        let body_handle_xy = self.absolute_handle(tugger.relative_body_handle_xy);
        Rope { body_handle_xy, rope_la: VecLa::from_xy(body_handle_xy.minus(tugger.world_dest)) }
    }

    /// The ropes of all the body's pulls, in the order of the slots.
    pub fn ropes(&self) -> (r: Vec<Rope>)
        ensures
            r@ == self.spec_ropes(3),
    {
        let mut ropes: Vec<Rope> = Vec::new();
        let mut i: usize = 0;
        while i < 3
            invariant
                0 <= i <= 3,
                ropes@ == self.spec_ropes(i as int),
            decreases 3 - i,
        {
            match self.tuggers[i] {
                Some(tugger) => {
                    ropes.push(self.rope(&tugger));
                },
                None => {},
            }
            i = i + 1;
        }
        ropes
    }

    /// Moves the body on by one step under the acceleration `acc`.
    pub fn integrate(&mut self, acc: FieldScalars)
        ensures
            *final(self) == old(self).spec_integrate(acc),
    {
        self.vel.add_from(&acc);
        self.pos.add_from(&self.vel);
        self.vel.xy = self.vel.xy.scaled(self.statics.xy.linear_friction_scalar);
        self.vel.angle = mul_fixed(self.vel.angle, self.statics.angle.linear_friction_scalar);
        self.vel.xy = self.vel.xy.reduce_length_saturating(self.statics.xy.constant_friction);
        self.vel.angle = toward_zero_saturating(
            self.vel.angle,
            self.statics.angle.constant_friction,
        );
    }

    /// Where the point `body_handle` of the body lies as seen from the body's
    /// centre, once the body is turned to its heading.
    pub fn xy_relative_handle(&self, body_handle: VecLa) -> (r: VecXy)
        ensures
            r == self.spec_xy_relative_handle(body_handle),
            r.in_range(),
    {
        body_handle.to_xy().rotated(self.pos.angle)
    }

    /// Where the point `body_handle` of the body lies in the world.
    pub fn absolute_handle(&self, body_handle: VecLa) -> (r: VecXy)
        ensures
            r == self.spec_absolute_handle(body_handle),
            r.in_range(),
    {
        self.xy_relative_handle(body_handle).plus(self.pos.xy)
    }
}

} // verus!
