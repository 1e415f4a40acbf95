use voxel_flyer::player::{Player, ScoreZone};

#[test]
fn fresh_player_is_alive_and_flying() {
    let p = Player::new();
    assert!(!p.is_dead && !p.frozen && p.visible && !p.close_overlap && !p.far_overlap);
}

#[test]
fn ready_freezes_until_respawn() {
    let mut p = Player::new();
    p.ready();
    assert!(p.frozen);
    assert!(!p.thrust_enabled());
    p.on_close_body_overlap();
    assert_eq!(p.score_zone(), ScoreZone::Away);
    p.on_timer_timeout();
    assert!(p.thrust_enabled());
    assert_eq!(p.score_zone(), ScoreZone::Close);
}

#[test]
fn crash_then_respawn() {
    let mut p = Player::new();
    p.on_far_body_overlap();
    p.on_collision();
    assert!(p.is_dead && p.frozen && !p.visible);
    assert_eq!(p.score_zone(), ScoreZone::Away);
    p.on_timer_timeout();
    assert!(!p.is_dead && !p.frozen && p.visible);
    assert!(p.far_overlap);
    assert_eq!(p.score_zone(), ScoreZone::Far);
}

#[test]
fn close_zone_wins_over_far() {
    let mut p = Player::new();
    p.on_far_body_overlap();
    p.on_close_body_overlap();
    assert_eq!(p.score_zone(), ScoreZone::Close);
    p.on_close_body_exit();
    assert_eq!(p.score_zone(), ScoreZone::Far);
    p.on_far_body_exit();
    assert_eq!(p.score_zone(), ScoreZone::Away);
}
