use torque_on_2d_shapes::body::{Body, FieldScalars, Tugger};
use torque_on_2d_shapes::game::{KeyAction, KeyCode, MouseButton, MyGame};
use torque_on_2d_shapes::scalar::ONE;
use torque_on_2d_shapes::vector::{VecLa, VecXy};

fn unrest(body: &Body) -> i64 {
    body.vel.xy.x.abs() + body.vel.xy.y.abs() + body.vel.angle.abs()
}

fn speed_squared(body: &Body) -> i128 {
    let x = body.vel.xy.x as i128;
    let y = body.vel.xy.y as i128;
    x * x + y * y
}

#[test]
fn new_sets_the_opening_scene() {
    let game = MyGame::new();
    assert_eq!(game.gravity, VecXy::new(0, 150_000));
    assert_eq!(game.bodies.len(), 2);
    let first = &game.bodies[0];
    assert_eq!(first.statics.xy.acc_scalar, 3_000);
    assert_eq!(first.statics.xy.linear_friction_scalar, 990_000);
    assert_eq!(first.statics.xy.constant_friction, 1_000);
    assert_eq!(first.statics.angle.acc_scalar, 90);
    assert_eq!(first.statics.angle.linear_friction_scalar, 990_000);
    assert_eq!(first.statics.angle.constant_friction, 100);
    assert_eq!(first.pos, FieldScalars { xy: VecXy::new(300 * ONE, 300 * ONE), angle: ONE });
    assert_eq!(first.vel, FieldScalars::zero());
    assert_eq!(first.scale, VecXy::new(50 * ONE, 50 * ONE));
    assert_eq!(first.max_tug_handle_distance, 35 * ONE);
    assert_eq!(first.tuggers[0], None);
    assert_eq!(
        first.tuggers[1],
        Some(Tugger {
            relative_body_handle_xy: VecLa { length: 7 * ONE, angle: 2 * ONE },
            world_dest: VecXy::new(300 * ONE, 280 * ONE),
        })
    );
    assert_eq!(
        first.tuggers[2],
        Some(Tugger {
            relative_body_handle_xy: VecLa { length: 9 * ONE, angle: 2_400_000 },
            world_dest: VecXy::new(400 * ONE, 220 * ONE),
        })
    );
    let second = &game.bodies[1];
    assert_eq!(second.statics.xy.acc_scalar, 2_000);
    assert_eq!(second.statics.angle.acc_scalar, 70);
    assert_eq!(second.scale, VecXy::new(80 * ONE, 30 * ONE));
    assert_eq!(second.max_tug_handle_distance, 80 * ONE);
    assert_eq!(
        second.tuggers[1],
        Some(Tugger {
            relative_body_handle_xy: VecLa { length: 35 * ONE, angle: 300_000 },
            world_dest: VecXy::new(450 * ONE, 100 * ONE),
        })
    );
    assert_eq!(
        second.tuggers[2],
        Some(Tugger {
            relative_body_handle_xy: VecLa { length: 30 * ONE, angle: 3_100_000 },
            world_dest: VecXy::new(510 * ONE, 400 * ONE),
        })
    );
}

#[test]
fn update_of_the_opening_scene_exact() {
    let mut game = MyGame::new();
    game.update();
    assert_eq!(
        game.bodies[0].pos,
        FieldScalars { xy: VecXy::new(300_314_220, 299_882_636), angle: 1_002_737 }
    );
    assert_eq!(game.bodies[0].vel, FieldScalars { xy: VecXy::new(310_140, -115_840), angle: 2_609 });
    assert_eq!(
        game.bodies[1].pos,
        FieldScalars { xy: VecXy::new(300_679_840, 299_985_929), angle: 996_937 }
    );
    assert_eq!(game.bodies[1].vel, FieldScalars { xy: VecXy::new(672_041, -13_909), angle: -2_932 });
    game.update();
    game.update();
    assert_eq!(
        game.bodies[0].pos,
        FieldScalars { xy: VecXy::new(301_860_228, 299_306_811), angle: 1_016_007 }
    );
    assert_eq!(
        game.bodies[1].pos,
        FieldScalars { xy: VecXy::new(304_037_608, 299_917_508), angle: 981_921 }
    );
    for _ in 0..100 {
        game.update();
    }
    assert_eq!(
        game.bodies[0].pos,
        FieldScalars { xy: VecXy::new(342_108_901, 285_552_529), angle: 2_810_813 }
    );
    assert_eq!(
        game.bodies[0].vel,
        FieldScalars { xy: VecXy::new(2_076_973, -662_125), angle: 14_661 }
    );
    assert_eq!(
        game.bodies[1].pos,
        FieldScalars { xy: VecXy::new(375_554_102, 319_674_726), angle: -464_549 }
    );
    assert_eq!(
        game.bodies[1].vel,
        FieldScalars { xy: VecXy::new(-2_152_074, -2_123_747), angle: -1_673 }
    );
}

#[test]
fn update_steps_every_body_by_itself() {
    let mut game = MyGame::new();
    let mut first = game.bodies[0];
    let mut second = game.bodies[1];
    for _ in 0..50 {
        game.update();
        first.step(VecXy::new(0, 150_000));
        second.step(VecXy::new(0, 150_000));
        assert_eq!(game.bodies[0].pos, first.pos);
        assert_eq!(game.bodies[0].vel, first.vel);
        assert_eq!(game.bodies[1].pos, second.pos);
        assert_eq!(game.bodies[1].vel, second.vel);
    }
    assert_eq!(game.bodies.len(), 2);
}

#[test]
fn equal_bodies_evolve_alike() {
    let body = MyGame::new().bodies[0];
    let mut game = MyGame::with_bodies(vec![body, body], VecXy::new(0, 150_000));
    game.mouse_button_down_event(MouseButton::Left, 310 * ONE, 305 * ONE);
    for tick in 0..300 {
        if tick == 100 {
            game.mouse_motion_event(200 * ONE, 500 * ONE);
        }
        if tick == 200 {
            game.mouse_button_up_event(MouseButton::Left);
        }
        game.update();
        assert_eq!(game.bodies[0].pos, game.bodies[1].pos);
        assert_eq!(game.bodies[0].vel, game.bodies[1].vel);
        assert_eq!(game.bodies[0].tuggers, game.bodies[1].tuggers);
    }
}

#[test]
fn a_body_does_not_feel_the_others() {
    let scene = MyGame::new();
    let mut alone = MyGame::with_bodies(vec![scene.bodies[0]], scene.gravity);
    let mut crowded =
        MyGame::with_bodies(vec![scene.bodies[1], scene.bodies[0], scene.bodies[1]], scene.gravity);
    for _ in 0..200 {
        alone.update();
        crowded.update();
        assert_eq!(alone.bodies[0].pos, crowded.bodies[1].pos);
        assert_eq!(alone.bodies[0].vel, crowded.bodies[1].vel);
        assert_eq!(crowded.bodies[0].pos, crowded.bodies[2].pos);
    }
}

#[test]
fn friction_alone_brings_a_body_to_rest() {
    let mut body = MyGame::new().bodies[0];
    body.tuggers = [None, None, None];
    body.vel = FieldScalars { xy: VecXy::new(3 * ONE, -4 * ONE), angle: 50_000 };
    let mut game = MyGame::with_bodies(vec![body], VecXy::zero());
    let mut ticks = 0;
    while game.bodies[0].vel != FieldScalars::zero() {
        let before = game.bodies[0];
        game.update();
        let after = game.bodies[0];
        assert!(speed_squared(&after) <= speed_squared(&before));
        assert!(after.vel.angle.abs() <= before.vel.angle.abs());
        assert!(unrest(&after) < unrest(&before));
        ticks += 1;
        assert!(ticks <= 7_050_000);
    }
    // A speed of 5 that loses a hundredth and 0.001 a step is spent after
    // 392 steps; the turning, 0.05 to begin with, long before.
    assert_eq!(ticks, 392);
    let rest = game.bodies[0].pos;
    game.update();
    assert_eq!(game.bodies[0].pos, rest);
    assert_eq!(game.bodies[0].vel, FieldScalars::zero());
}

#[test]
fn constant_friction_uses_up_the_speed_in_speed_over_friction_steps() {
    let mut body = MyGame::new().bodies[0];
    body.tuggers = [None, None, None];
    body.statics.xy.linear_friction_scalar = ONE;
    body.statics.angle.linear_friction_scalar = ONE;
    body.statics.xy.constant_friction = ONE / 2;
    body.statics.angle.constant_friction = 7;
    // A speed of 5 at 0.5 a step: 10 steps. A turning of 60 at 7: 9 steps.
    body.vel = FieldScalars { xy: VecXy::new(3 * ONE, -4 * ONE), angle: -60 };
    let mut game = MyGame::with_bodies(vec![body], VecXy::zero());
    game.update();
    assert_eq!(game.bodies[0].vel, FieldScalars { xy: VecXy::new(2_700_000, -3_600_000), angle: -53 });
    for _ in 1..9 {
        game.update();
    }
    assert_eq!(game.bodies[0].vel, FieldScalars { xy: VecXy::new(300_000, -400_000), angle: 0 });
    game.update();
    assert_eq!(game.bodies[0].vel, FieldScalars::zero());

    // A speed of 1.41421356 at 0.3 a step: 5 steps.
    body.statics.xy.constant_friction = 300_000;
    body.vel = FieldScalars { xy: VecXy::new(ONE, ONE), angle: 0 };
    let mut game = MyGame::with_bodies(vec![body], VecXy::zero());
    for _ in 0..4 {
        game.update();
    }
    assert_eq!(game.bodies[0].vel.xy, VecXy::new(151_468, 151_468));
    game.update();
    assert_eq!(game.bodies[0].vel, FieldScalars::zero());
}

#[test]
fn a_body_without_friction_keeps_its_velocity() {
    let mut body = MyGame::new().bodies[0];
    body.tuggers = [None, None, None];
    body.statics.xy.linear_friction_scalar = ONE;
    body.statics.angle.linear_friction_scalar = ONE;
    body.statics.xy.constant_friction = 0;
    body.statics.angle.constant_friction = 0;
    body.vel = FieldScalars { xy: VecXy::new(1_234_567, -7), angle: 13 };
    let mut game = MyGame::with_bodies(vec![body], VecXy::zero());
    for _ in 0..1_000 {
        game.update();
    }
    assert_eq!(game.bodies[0].vel, body.vel);
}

#[test]
fn friction_by_share_alone_slows_but_need_not_stop() {
    let mut body = MyGame::new().bodies[0];
    body.tuggers = [None, None, None];
    body.statics.xy.constant_friction = 0;
    body.statics.angle.constant_friction = 0;
    body.statics.xy.linear_friction_scalar = ONE;
    body.vel = FieldScalars { xy: VecXy::new(3 * ONE, -4 * ONE), angle: 0 };
    let mut game = MyGame::with_bodies(vec![body], VecXy::zero());
    for _ in 0..1_000 {
        game.update();
    }
    assert_eq!(game.bodies[0].vel.xy, VecXy::new(3 * ONE, -4 * ONE));
}

#[test]
fn only_the_left_button_takes_up_and_lets_go() {
    let mut game = MyGame::new();
    game.mouse_button_down_event(MouseButton::Other, 300 * ONE, 300 * ONE);
    assert_eq!(game.bodies[0].tuggers[0], None);
    assert_eq!(game.bodies[1].tuggers[0], None);
    game.mouse_button_down_event(MouseButton::Left, 300 * ONE, 300 * ONE);
    assert!(game.bodies[0].tuggers[0].is_some());
    assert!(game.bodies[1].tuggers[0].is_some());
    game.mouse_button_up_event(MouseButton::Other);
    assert!(game.bodies[0].tuggers[0].is_some());
    game.mouse_button_up_event(MouseButton::Left);
    assert_eq!(game.bodies[0].tuggers[0], None);
    assert_eq!(game.bodies[1].tuggers[0], None);
}

#[test]
fn the_pointer_takes_up_the_bodies_within_reach_only() {
    let mut game = MyGame::new();
    // 50 away from both centres: beyond the reach 35, within the reach 80.
    // Turning the way into the body's frame rounds 8 millionths off it.
    game.mouse_button_down_event(MouseButton::Left, 350 * ONE, 300 * ONE);
    assert_eq!(game.bodies[0].tuggers[0], None);
    let held = game.bodies[1].tuggers[0];
    assert_eq!(
        held,
        Some(Tugger {
            relative_body_handle_xy: VecLa { length: 49_999_992, angle: -ONE },
            world_dest: VecXy::new(350 * ONE, 300 * ONE),
        })
    );
    game.mouse_motion_event(10 * ONE, 20 * ONE);
    assert_eq!(game.bodies[0].tuggers[0], None);
    assert_eq!(
        game.bodies[1].tuggers[0],
        Some(Tugger { world_dest: VecXy::new(10 * ONE, 20 * ONE), ..held.unwrap() })
    );
}

#[test]
fn keys_quit_mirror_or_do_nothing() {
    let mut game = MyGame::new();
    let before: Vec<Body> = game.bodies.clone();
    assert_eq!(game.key_down_event(KeyCode::Escape, false), KeyAction::Quit);
    assert_eq!(game.key_down_event(KeyCode::Escape, true), KeyAction::Continue);
    assert_eq!(game.key_down_event(KeyCode::Other, false), KeyAction::Continue);
    assert_eq!(game.key_down_event(KeyCode::Space, true), KeyAction::Continue);
    for i in 0..2 {
        assert_eq!(game.bodies[i].tuggers, before[i].tuggers);
    }
    game.mouse_button_down_event(MouseButton::Left, 300 * ONE, 310 * ONE);
    assert_eq!(game.key_down_event(KeyCode::Space, false), KeyAction::Continue);
    for i in 0..2 {
        let live = game.bodies[i].tuggers[0].unwrap();
        assert_eq!(live.world_dest, VecXy::new(300 * ONE, 310 * ONE));
        for slot in 1..3 {
            let was = before[i].tuggers[slot].unwrap();
            let is = game.bodies[i].tuggers[slot].unwrap();
            assert_eq!(is.world_dest, VecXy::new(was.world_dest.y, was.world_dest.x));
            assert_eq!(is.relative_body_handle_xy, was.relative_body_handle_xy);
        }
        assert_eq!(game.bodies[i].pos, before[i].pos);
    }
}
