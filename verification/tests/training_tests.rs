use robo_sim4::training::{AgentProgress, RewardKind, StepEvent, LANDMARK_COUNT, SAVE_PERIOD};

fn event(fell: bool, past_end: bool, in_goal: bool, timed_out: bool) -> StepEvent {
    StepEvent { fell, past_end, in_goal, timed_out }
}

#[test]
fn new_agent_starts_at_first_landmark() {
    let a = AgentProgress::new();
    assert_eq!(a.episode(), 0);
    assert_eq!(a.progress(), 0);
}

#[test]
fn landmarks_are_visited_in_order_and_stop_at_the_last() {
    let mut a = AgentProgress::new();
    a.record_landmark(false);
    assert_eq!(a.progress(), 0);
    a.record_landmark(true);
    assert_eq!(a.progress(), 1);
    for _ in 0..10 {
        a.record_landmark(true);
    }
    assert_eq!(a.progress(), LANDMARK_COUNT - 1);
}

#[test]
fn a_fall_respawns_with_the_worst_reward() {
    let mut a = AgentProgress::new();
    a.record_landmark(true);
    let o = a.after_move(event(true, false, true, true));
    assert!(o.respawn);
    assert!(o.terminal);
    assert_eq!(o.reward, RewardKind::Fell);
    assert_eq!(a.progress(), 0);
}

#[test]
fn passing_the_end_in_the_goal_zone_is_the_goal() {
    let mut a = AgentProgress::new();
    let o = a.after_move(event(false, true, true, false));
    assert!(o.respawn);
    assert_eq!(o.reward, RewardKind::ReachedGoal);
}

#[test]
fn running_out_of_time_respawns() {
    let mut a = AgentProgress::new();
    a.record_landmark(true);
    a.record_landmark(true);
    let o = a.after_move(event(false, false, true, true));
    assert!(o.respawn && o.terminal);
    assert_eq!(o.reward, RewardKind::TimedOut);
    assert_eq!(a.progress(), 0);
}

#[test]
fn passing_the_end_outside_the_goal_zone_respawns_without_goal_reward() {
    let mut a = AgentProgress::new();
    let o = a.after_move(event(false, true, false, false));
    assert!(o.respawn && o.terminal);
    assert_eq!(o.reward, RewardKind::Progress);
}

#[test]
fn an_ordinary_move_keeps_the_life_going() {
    let mut a = AgentProgress::new();
    a.record_landmark(true);
    let o = a.after_move(event(false, false, false, false));
    assert!(!o.respawn && !o.terminal);
    assert_eq!(o.reward, RewardKind::Progress);
    assert_eq!(a.progress(), 1);
}

#[test]
fn weights_are_saved_every_period() {
    let mut a = AgentProgress::new();
    let mut saves = vec![];
    for _ in 0..(3 * SAVE_PERIOD) {
        if a.finish_episode() {
            saves.push(a.episode());
        }
    }
    assert_eq!(saves, vec![SAVE_PERIOD, 2 * SAVE_PERIOD, 3 * SAVE_PERIOD]);
    assert_eq!(a.progress(), 0);
}
