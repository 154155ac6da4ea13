use robot_world::moveable::{Direction, Moveable, MovementError};
use robot_world::robot::Robot;

#[test]
fn move_robot_too_far() {
    let mut robot = Robot::new("rusty-test".to_string());
    // assert defaults
    assert_eq!(robot.position.x, 0);
    assert_eq!(robot.position.y, 0);
    // make the change
    assert_eq!(
        robot.move_robot(Direction::Forward { step: 5 }),
        Err(MovementError::TooFar)
    );
    // assert the not changed values
    assert_eq!(robot.position.x, 0);
    assert_eq!(robot.position.y, 0);
}

#[test]
fn move_robot_limit() {
    let mut robot = Robot::new("rusty-test".to_string());
    // assert defaults
    assert_eq!(robot.position.x, 0);
    assert_eq!(robot.position.y, 0);
    // make the change
    assert!(robot.move_robot(Direction::Forward { step: 3 }).is_ok());
    // assert the not changed values
    assert_eq!(robot.position.x, 0);
    assert_eq!(robot.position.y, 3);
}

#[test]
fn move_robot_neg() {
    let mut robot = Robot::new("rusty-test".to_string());
    // assert defaults
    assert_eq!(robot.position.x, 0);
    assert_eq!(robot.position.y, 0);
    // reach (0, 3) first, then make the rejected change
    assert!(robot.move_robot(Direction::Forward { step: 3 }).is_ok());
    assert!(robot.move_robot(Direction::Forward { step: -1 }).is_err());
    // assert the not changed values
    assert_eq!(robot.position.x, 0);
    assert_eq!(robot.position.y, 3);
}

#[test]
fn move_robot_neg_far() {
    let mut robot = Robot::new("rusty-test".to_string());
    // assert defaults
    assert_eq!(robot.position.x, 0);
    assert_eq!(robot.position.y, 0);
    // make the change
    assert!(robot.move_robot(Direction::Forward { step: -1000 }).is_err());
    // assert the not changed values
    assert_eq!(robot.position.x, 0);
    assert_eq!(robot.position.y, 0);
}

#[test]
fn robot_move_robot_too_far() {
    let mut robot = Robot::new("rusty-test".to_string());
    assert_eq!(robot.position.x, 0);
    assert_eq!(robot.position.y, 0);
    assert_eq!(
        robot.move_robot(Direction::Forward { step: 5 }),
        Err(MovementError::TooFar)
    );
    assert_eq!(robot.position.x, 0);
    assert_eq!(robot.position.y, 0);
}

#[test]
fn robot_move_robot_limit() {
    let mut robot = Robot::new("rusty-test".to_string());
    assert_eq!(robot.position.x, 0);
    assert_eq!(robot.position.y, 0);
    assert!(robot.move_robot(Direction::Forward { step: 3 }).is_ok());
    assert_eq!(robot.position.x, 0);
    assert_eq!(robot.position.y, 3);
}

#[test]
fn robot_move_robot_neg() {
    let mut robot = Robot::new("rusty-test".to_string());
    assert_eq!(robot.position.x, 0);
    assert_eq!(robot.position.y, 0);
    assert!(robot.move_robot(Direction::Forward { step: 3 }).is_ok());
    assert!(robot.move_robot(Direction::Forward { step: -1 }).is_err());
    assert_eq!(robot.position.x, 0);
    assert_eq!(robot.position.y, 3);
}

#[test]
fn robot_move_robot_neg_far() {
    let mut robot = Robot::new("rusty-test".to_string());
    assert_eq!(robot.position.x, 0);
    assert_eq!(robot.position.y, 0);
    assert!(robot.move_robot(Direction::Forward { step: -1000 }).is_err());
    assert_eq!(robot.position.x, 0);
    assert_eq!(robot.position.y, 0);
}

// Scenario: a rejected step, an accepted one, then a rejected negative
// step, with the position held at (0, 3) throughout the rejections.
#[test]
fn robot_scenario_forward_policy() {
    let mut robot = Robot::new("rusty-test".to_string());
    assert!(robot.move_robot(Direction::Forward { step: 5 }).is_err());
    assert_eq!((robot.position.x, robot.position.y), (0, 0));
    assert!(robot.move_robot(Direction::Forward { step: 3 }).is_ok());
    assert_eq!((robot.position.x, robot.position.y), (0, 3));
    assert!(robot.move_robot(Direction::Forward { step: -1000 }).is_err());
    assert_eq!((robot.position.x, robot.position.y), (0, 3));
}

// Each unit move always succeeds and changes exactly one coordinate by one.
#[test]
fn unit_moves_change_one_coordinate() {
    let mut robot = Robot::new("rusty-test".to_string());
    assert!(robot.move_robot(Direction::Right).is_ok());
    assert_eq!((robot.position.x, robot.position.y), (1, 0));
    assert!(robot.move_robot(Direction::Left).is_ok());
    assert_eq!((robot.position.x, robot.position.y), (0, 0));
    assert!(robot.move_robot(Direction::Backwards).is_ok());
    assert_eq!((robot.position.x, robot.position.y), (0, -1));
    assert!(robot.move_robot(Direction::Left).is_ok());
    assert_eq!((robot.position.x, robot.position.y), (-1, -1));
}

// Forward steps 0 through 3 all succeed and advance y by exactly the step.
#[test]
fn forward_steps_within_limit() {
    for step in 0..4 {
        let mut robot = Robot::new("rusty-test".to_string());
        assert!(robot.move_robot(Direction::Forward { step }).is_ok());
        assert_eq!(robot.position.x, 0);
        assert_eq!(robot.position.y, step);
    }
}

// Forward steps of 4 or more all fail with TooFar and move nothing.
#[test]
fn forward_steps_beyond_limit() {
    for step in [4, 5, 100, i32::MAX] {
        let mut robot = Robot::new("rusty-test".to_string());
        assert_eq!(
            robot.move_robot(Direction::Forward { step }),
            Err(MovementError::TooFar)
        );
        assert_eq!(robot.position.x, 0);
        assert_eq!(robot.position.y, 0);
    }
}

#[test]
fn robot_new_defaults_and_text() {
    let robot = Robot::new("Rusty".to_string());
    assert_eq!(robot.state_of_charge, 255);
    assert_eq!(robot.text(), "(Robot name: Rusty Position: 0, 0)");
}

#[test]
fn hello_counts_calls() {
    let robot = Robot::new("wall-e".to_string());
    let mut count = 0i32;
    let msg = robot.hello(&mut count);
    assert_eq!(count, 1);
    assert_eq!(msg, "(Robot name: wall-e Position: 0, 0)");
    robot.hello(&mut count);
    assert_eq!(count, 2);
}

// The capability trait is implemented by Robot with the same behavior as
// the inherent method.
#[test]
fn moveable_trait_moves_robot() {
    let mut robot = Robot::new("trait-bot".to_string());
    assert!(<Robot as Moveable>::move_robot(&mut robot, Direction::Forward { step: 2 }).is_ok());
    assert_eq!((robot.position.x, robot.position.y), (0, 2));
    assert!(<Robot as Moveable>::move_robot(&mut robot, Direction::Forward { step: 4 }).is_err());
    assert_eq!((robot.position.x, robot.position.y), (0, 2));
}
