use robo_sim4::inputs::{Inputs, Movement};

fn all_false() -> Inputs {
    Inputs {
        fly_up: false,
        fly_down: false,
        turn_left: false,
        turn_right: false,
        jump: false,
        left: false,
        right: false,
        forward: false,
        backward: false,
    }
}

#[test]
fn init_sets_no_flag() {
    assert_eq!(Inputs::init(), all_false());
}

#[test]
fn keys_in_camera_mode_fly() {
    let i = Inputs::from_inputs(true, true, false, true, true, true, false, true, false, true);
    assert!(i.turn_left);
    assert!(!i.turn_right);
    assert!(i.fly_up);
    assert!(i.fly_down);
    assert!(i.left);
    assert!(!i.right);
    assert!(i.forward);
    assert!(!i.backward);
    assert!(i.jump);
}

#[test]
fn keys_outside_camera_mode_never_fly() {
    let i = Inputs::from_inputs(false, false, true, true, true, false, true, false, true, false);
    assert!(!i.fly_up);
    assert!(!i.fly_down);
    assert!(i.turn_right);
    assert!(i.right);
    assert!(i.backward);
    assert!(!i.jump);
}

#[test]
fn no_keys_equals_init_in_both_modes() {
    for mode in [false, true] {
        let i = Inputs::from_inputs(mode, false, false, false, false, false, false, false, false, false);
        assert_eq!(i, Inputs::init());
        assert!(i.movements(mode).is_empty());
    }
}

#[test]
fn agent_actions_map_to_one_movement() {
    let expected = [
        Some(Movement::Forward),
        Some(Movement::Backward),
        Some(Movement::StrafeLeft),
        Some(Movement::StrafeRight),
        None,
        None,
    ];
    for (action, want) in [0usize, 1, 2, 3, 4, 1000].iter().zip(expected.iter()) {
        let i = Inputs::from_action(*action);
        assert!(!i.jump && !i.fly_up && !i.fly_down && !i.turn_left && !i.turn_right);
        let moves = i.movements(true);
        match want {
            Some(m) => assert_eq!(moves, vec![*m]),
            None => {
                assert!(moves.is_empty());
                assert_eq!(i, Inputs::init());
            }
        }
    }
}

#[test]
fn movements_come_in_fixed_order() {
    let mut i = Inputs::init();
    i.backward = true;
    i.fly_down = true;
    i.left = true;
    i.forward = true;
    i.fly_up = true;
    i.right = true;
    i.jump = true;
    i.turn_left = true;
    assert_eq!(
        i.movements(true),
        vec![
            Movement::FlyUp,
            Movement::FlyDown,
            Movement::StrafeLeft,
            Movement::StrafeRight,
            Movement::Forward,
            Movement::Backward
        ]
    );
    assert_eq!(
        i.movements(false),
        vec![Movement::StrafeLeft, Movement::StrafeRight, Movement::Forward, Movement::Backward]
    );
}
