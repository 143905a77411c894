use oneko_desktop::cat::{
    Act, Aim, CatState, IdleAnim, Mode, RemoteAct, RemoteCat, Senses, SCRATCH_FRAMES,
};
use oneko_desktop::herd::{find_peer, render_of, Herd, Play, RemotePeer, CHASE_FRAMES, LAP_FRAMES};
use oneko_desktop::protocol::{CatStyle, Coord, PeerSnapshot};
use oneko_desktop::sanitize::sanitize_renders;
use oneko_desktop::sprite::{
    dir, pick, scratch_toward, Heading, Offset, Sprite, ALERT, E, IDLE, N, NE, NW, S, SCRATCH_E,
    SCRATCH_N, SCRATCH_S, SCRATCH_SELF, SCRATCH_W, SE, SLEEP, SW, TIRED, WDIR,
};

const HERE: Offset = Offset { steep: false, above: false, left: false };

fn lcg(rng: u64) -> u64 {
    rng.wrapping_mul(6364136223846793005).wrapping_add(1)
}

fn rolled(rng: u64, n: u32) -> u32 {
    ((rng >> 32) as u32) % n
}

/// A generator whose first draws come out as wanted.
fn rng_with(wanted: impl Fn(u64) -> bool) -> u64 {
    let mut rng = 1u64;
    while !wanted(rng) {
        rng = rng.wrapping_add(0x9e37_79b9_7f4a_7c15);
    }
    rng
}

fn senses(near_mouse: bool, near_target: bool) -> Senses {
    Senses { near_mouse, near_target, offset: HERE }
}

fn heading(north: bool, south: bool, west: bool, east: bool) -> Heading {
    Heading { north, south, west, east }
}

fn on_sheet(sprite: Sprite) -> bool {
    sprite.0 < 8 && sprite.1 < 4
}

#[test]
fn frames_go_through_a_set_again_and_again() {
    assert_eq!(pick(&SCRATCH_SELF, 0), (5, 0));
    assert_eq!(pick(&SCRATCH_SELF, 2), (7, 0));
    assert_eq!(pick(&SCRATCH_SELF, 3), (5, 0));
    assert_eq!(pick(&IDLE, u32::MAX), (3, 3));
}

#[test]
fn cats_walk_eight_ways() {
    assert_eq!(dir(heading(true, false, true, false)), &NW);
    assert_eq!(dir(heading(true, false, false, true)), &NE);
    assert_eq!(dir(heading(false, true, true, false)), &SW);
    assert_eq!(dir(heading(false, true, false, true)), &SE);
    assert_eq!(dir(heading(true, false, false, false)), &N);
    assert_eq!(dir(heading(false, true, false, false)), &S);
    assert_eq!(dir(heading(false, false, true, false)), &WDIR);
    assert_eq!(dir(heading(false, false, false, true)), &E);
    assert_eq!(dir(heading(false, false, false, false)), &E);
}

#[test]
fn cats_scratch_four_ways() {
    let offset = |steep, above, left| Offset { steep, above, left };
    assert_eq!(scratch_toward(offset(true, true, false), 0), SCRATCH_N[0]);
    assert_eq!(scratch_toward(offset(true, false, true), 1), SCRATCH_S[1]);
    assert_eq!(scratch_toward(offset(false, true, true), 2), SCRATCH_W[0]);
    assert_eq!(scratch_toward(offset(false, true, false), 3), SCRATCH_E[1]);
}

#[test]
fn every_cell_lies_on_the_sheet() {
    let sets: Vec<&[Sprite]> = vec![
        &IDLE, &ALERT, &TIRED, &SLEEP, &SCRATCH_SELF, &SCRATCH_N, &SCRATCH_S, &SCRATCH_E,
        &SCRATCH_W, &N, &NE, &E, &SE, &S, &SW, &WDIR, &NW,
    ];
    for set in sets {
        assert!(set.iter().all(|s| on_sheet(*s)));
    }
}

#[test]
fn fresh_cats_sit() {
    let cat = CatState::new(256 * 90);
    assert_eq!(cat.sprite, (3, 3));
    assert_eq!(cat.rng, 256 * 90 + 1);
    assert_eq!(cat.mode, Mode::Orbit);
    assert_eq!(cat.orbit_degrees, 90);
    assert_eq!((cat.frame, cat.idle, cat.idle_frame, cat.push_frames), (0, 0, 0, 0));
    assert_eq!(cat.idle_anim, None);
    assert_eq!(CatState::new(7).rng, 7);
}

#[test]
fn laps_count_down_and_end() {
    let mut cat = CatState::new(1);
    cat.mode = Mode::Lap { pace: 38, ttl: 2 };
    assert_eq!(cat.start_frame(1), Aim::Lap { pace: 38 });
    assert_eq!(cat.mode, Mode::Lap { pace: 38, ttl: 1 });
    assert_eq!(cat.start_frame(1), Aim::Lap { pace: 38 });
    assert_eq!(cat.start_frame(1), Aim::LapOver { pace: 38 });
    assert_eq!(cat.mode, Mode::Orbit);
    assert_eq!(cat.start_frame(1), Aim::Orbit);
    assert_eq!(cat.frame, 4);
}

#[test]
fn chases_end_with_time_or_with_the_mate() {
    let mut cat = CatState::new(1);
    cat.mode = Mode::Chase { mate: 1, ttl: 1 };
    assert_eq!(cat.target(2), Aim::Chase { mate: 1 });
    assert_eq!(cat.mode, Mode::Chase { mate: 1, ttl: 0 });
    assert_eq!(cat.target(2), Aim::ChaseOver);
    assert_eq!(cat.mode, Mode::Orbit);
    cat.mode = Mode::Chase { mate: 1, ttl: 9 };
    assert_eq!(cat.target(1), Aim::ChaseOver);
    assert_eq!(cat.mode, Mode::Orbit);
}

#[test]
fn frames_are_counted_round() {
    let mut cat = CatState::new(1);
    cat.frame = u32::MAX;
    cat.start_frame(1);
    assert_eq!(cat.frame, 0);
}

#[test]
fn cats_walk_to_far_targets() {
    let mut cat = CatState::new(1);
    cat.idle_anim = Some(IdleAnim::Groom);
    cat.idle_frame = 3;
    let before = cat.rng;
    assert_eq!(cat.advance(senses(false, false), true, true), Act::Walk);
    assert_eq!(cat.idle_anim, None);
    assert_eq!(cat.idle_frame, 0);
    assert_eq!(cat.rng, before);
    cat.frame = 1;
    cat.face(heading(true, false, false, false));
    assert_eq!(cat.sprite, N[1]);
}

#[test]
fn cats_settle_near_a_moving_cursor() {
    let mut cat = CatState::new(1);
    cat.idle = 30;
    cat.idle_anim = Some(IdleAnim::Sleep);
    assert_eq!(cat.advance(senses(false, true), true, false), Act::Settle);
    assert_eq!(cat.idle, 0);
    assert_eq!(cat.idle_anim, None);
    assert_eq!(cat.sprite, IDLE[0]);
}

#[test]
fn cats_scratch_at_a_cursor_in_reach_by_chance() {
    let mut cat = CatState::new(1);
    cat.rng = rng_with(|r| rolled(lcg(r), 18) == 0);
    cat.frame = 1;
    let reach = Senses {
        near_mouse: true,
        near_target: true,
        offset: Offset { steep: true, above: true, left: false },
    };
    assert_eq!(cat.advance(reach, true, false), Act::Scratch);
    assert_eq!(cat.sprite, SCRATCH_N[1]);
    assert_eq!(cat.push_frames, SCRATCH_FRAMES);
    for left in (0..SCRATCH_FRAMES).rev() {
        let act = if left == 2 { Act::Hold } else { Act::Push };
        assert_eq!(cat.advance(senses(false, false), left != 2, true), act);
        assert_eq!(cat.push_frames, left);
        assert_eq!(cat.sprite, SCRATCH_N[1]);
    }
    assert_eq!(cat.advance(senses(false, false), true, true), Act::Walk);
}

#[test]
fn cats_that_are_not_tempted_do_something_else() {
    let mut cat = CatState::new(1);
    cat.rng = rng_with(|r| rolled(lcg(r), 18) != 0);
    let next = lcg(cat.rng);
    assert_eq!(cat.advance(senses(true, true), true, false), Act::Settle);
    assert_eq!(cat.rng, next);
}

#[test]
fn cats_do_not_push_unless_allowed() {
    let mut cat = CatState::new(1);
    cat.rng = rng_with(|r| rolled(lcg(r), 18) == 0);
    let before = cat.rng;
    assert_eq!(cat.advance(senses(true, true), false, false), Act::Settle);
    assert_eq!(cat.rng, before);
}

#[test]
fn idle_cats_start_up_before_they_go() {
    let mut cat = CatState::new(1);
    cat.idle = 100;
    for idle in [6, 5, 4, 3, 2, 1] {
        assert_eq!(cat.advance(senses(false, false), true, true), Act::Alert);
        assert_eq!(cat.idle, idle);
        assert_eq!(cat.sprite, ALERT[0]);
    }
    assert_eq!(cat.advance(senses(false, false), true, true), Act::Walk);
}

#[test]
fn cats_in_a_game_do_not_rest() {
    let mut cat = CatState::new(1);
    cat.mode = Mode::Lap { pace: 38, ttl: 3 };
    assert_eq!(cat.advance(senses(false, true), false, true), Act::Walk);
}

#[test]
fn idle_cats_wait_before_they_do_something() {
    let mut cat = CatState::new(1);
    let before = cat.rng;
    for n in 1..=10 {
        assert_eq!(cat.advance(senses(false, true), false, true), Act::Idle);
        assert_eq!(cat.idle, n);
        assert_eq!(cat.idle_frame, n);
        assert_eq!(cat.sprite, IDLE[0]);
    }
    assert_eq!(cat.rng, before);
    cat.locked_idle();
    assert_eq!(cat.rng, lcg(before));
}

#[test]
fn idle_cats_do_one_of_six_things() {
    let things = [
        IdleAnim::Sleep,
        IdleAnim::Groom,
        IdleAnim::N,
        IdleAnim::S,
        IdleAnim::E,
        IdleAnim::W,
    ];
    let cells = [TIRED[0], SCRATCH_SELF[0], SCRATCH_N[0], SCRATCH_S[0], SCRATCH_E[0], SCRATCH_W[0]];
    for k in 0..6 {
        let mut cat = CatState::new(1);
        cat.idle = 10;
        cat.rng = rng_with(|r| {
            rolled(lcg(r), 200) == 0 && rolled(lcg(lcg(r)), 6) == k as u32
        });
        assert_eq!(cat.locked_idle(), cells[k]);
        assert_eq!(cat.idle_anim, Some(things[k]));
        assert_eq!(cat.idle_frame, 1);
        assert_eq!(cat.sprite, cells[k]);
    }
}

#[test]
fn sleeping_cats_are_tired_then_sleep_then_wake() {
    let mut cat = CatState::new(1);
    cat.idle = 50;
    cat.idle_anim = Some(IdleAnim::Sleep);
    cat.idle_frame = 7;
    assert_eq!(cat.locked_idle(), TIRED[0]);
    assert_eq!(cat.locked_idle(), SLEEP[0]);
    cat.idle_frame = 12;
    assert_eq!(cat.locked_idle(), SLEEP[1]);
    cat.idle_frame = 192;
    cat.locked_idle();
    assert_eq!(cat.idle_anim, Some(IdleAnim::Sleep));
    assert_eq!(cat.idle_frame, 193);
    cat.locked_idle();
    assert_eq!(cat.idle_anim, None);
    assert_eq!(cat.idle_frame, 1);
}

#[test]
fn scratching_a_wall_ends() {
    let mut cat = CatState::new(1);
    cat.idle_anim = Some(IdleAnim::E);
    cat.idle_frame = 9;
    assert_eq!(cat.step_idle(&SCRATCH_E), SCRATCH_E[1]);
    assert_eq!(cat.idle_anim, Some(IdleAnim::E));
    cat.idle_frame = 10;
    assert_eq!(cat.step_idle(&SCRATCH_E), SCRATCH_E[0]);
    assert_eq!(cat.idle_anim, None);
    assert_eq!(cat.idle_frame, 0);
    cat.idle_anim = Some(IdleAnim::Groom);
    cat.reset_idle();
    assert_eq!(cat.idle_anim, None);
}

#[test]
fn cats_stay_on_the_sheet_and_count_in_step() {
    let mut cat = CatState::new(12345);
    for n in 0..20_000u32 {
        cat.start_frame(1);
        cat.advance(senses(n % 7 == 0, n % 3 != 0 || n > 9000), true, n % 1000 > 20);
        assert!(on_sheet(cat.sprite));
        assert!(cat.idle_frame <= cat.idle);
    }
}

#[test]
fn cats_of_others_appear_rest_and_walk() {
    let mut cat = RemoteCat::new(256 * 30);
    assert_eq!(cat.orbit_degrees, 30);
    assert_eq!(cat.sprite, IDLE[0]);
    cat.sprite = N[0];
    assert_eq!(cat.advance(true, false), RemoteAct::Appear);
    assert_eq!(cat.sprite, IDLE[0]);
    assert_eq!(cat.advance(false, false), RemoteAct::Walk);
    cat.face(heading(false, true, false, true), 3);
    assert_eq!(cat.sprite, SE[1]);
    assert_eq!(cat.advance(false, true), RemoteAct::Rest);
    assert_eq!(cat.sprite, IDLE[0]);
}

#[test]
fn there_are_as_many_cats_as_desired() {
    let mut herd = Herd::new(0);
    assert_eq!(herd.rng, 0x1234_5678_9abc_def0);
    herd.reconcile(3);
    assert_eq!(herd.cats.len(), 3);
    let first = lcg(0x1234_5678_9abc_def0);
    assert_eq!(herd.cats[0], CatState::new(first));
    assert_eq!(herd.cats[1], CatState::new(lcg(first)));
    assert_eq!(herd.rng, lcg(lcg(first)));
    let kept = herd.cats[0];
    herd.reconcile(1);
    assert_eq!(herd.cats, vec![kept]);
    let rng = herd.rng;
    herd.reconcile(1);
    assert_eq!(herd.rng, rng);
    herd.reconcile(0);
    assert!(herd.cats.is_empty());
}

#[test]
fn draws_of_the_herd_follow_the_generator() {
    let mut herd = Herd::new(5);
    let rng = herd.rng;
    assert_eq!(herd.roll_u64(), lcg(rng));
    assert_eq!(herd.roll(30), rolled(lcg(lcg(rng)), 30));
}

#[test]
fn most_frames_begin_no_game() {
    let mut herd = Herd::new(0);
    herd.reconcile(2);
    herd.rng = rng_with(|r| rolled(lcg(r), 30) != 0);
    let next = lcg(herd.rng);
    assert_eq!(herd.tick(true), None);
    assert_eq!(herd.rng, next);
    assert_eq!(herd.cats[0].mode, Mode::Orbit);
    let mut none = Herd::new(9);
    let rng = none.rng;
    assert_eq!(none.plan_play(), None);
    assert_eq!(none.rng, rng);
}

#[test]
fn two_cats_run_after_each_other() {
    let mut herd = Herd::new(0);
    herd.reconcile(3);
    herd.rng = rng_with(|r| {
        let a = lcg(r);
        let b = lcg(a);
        let c = lcg(b);
        let d = lcg(c);
        rolled(a, 30) == 0 && rolled(b, 2) == 0 && rolled(c, 3) == 2 && rolled(d, 3) == 2
    });
    let last = (0..5).fold(herd.rng, |r, _| lcg(r));
    let play = herd.tick(true);
    assert_eq!(play, Some(Play::Pair { lead: 2, chaser: 0, degrees: rolled(last, 360) }));
    assert_eq!(herd.cats[2].mode, Mode::Lap { pace: 45, ttl: CHASE_FRAMES });
    assert_eq!(herd.cats[0].mode, Mode::Chase { mate: 2, ttl: CHASE_FRAMES });
    assert_eq!(herd.rng, last);
    assert_eq!(herd.tick(false), None);
    assert!(herd.cats.iter().all(|c| c.mode == Mode::Orbit));
}

#[test]
fn one_cat_runs_laps() {
    let mut herd = Herd::new(0);
    herd.reconcile(1);
    herd.rng = rng_with(|r| rolled(lcg(r), 30) == 0);
    let last = (0..3).fold(herd.rng, |r, _| lcg(r));
    assert_eq!(herd.plan_play(), Some(Play::Solo { cat: 0, degrees: rolled(last, 360) }));
    assert_eq!(herd.cats[0].mode, Mode::Lap { pace: 38, ttl: LAP_FRAMES });
}

#[test]
fn no_cat_chases_itself() {
    let mut herd = Herd::new(77);
    herd.reconcile(4);
    let mut pairs = 0;
    for _ in 0..5000 {
        match herd.tick(true) {
            Some(Play::Pair { lead, chaser, degrees }) => {
                assert_ne!(lead, chaser);
                assert!(lead < 4 && chaser < 4 && degrees < 360);
                pairs += 1;
            }
            Some(Play::Solo { cat, degrees }) => assert!(cat < 4 && degrees < 360),
            None => {}
        }
    }
    assert!(pairs > 0);
}

fn peer(id: &str, cats: usize) -> PeerSnapshot {
    PeerSnapshot { id: id.to_string(), cats: vec![CatStyle::default(); cats], ..Default::default() }
}

fn shape(remotes: &[RemotePeer]) -> Vec<(&str, usize)> {
    remotes.iter().map(|r| (r.id.as_str(), r.cats.len())).collect()
}

#[test]
fn cats_of_others_are_those_of_the_peers() {
    let mut herd = Herd::new(3);
    herd.reconcile_remote(&vec![peer("a", 2), peer("b", 1)]);
    assert_eq!(shape(&herd.remotes), vec![("a", 2), ("b", 1)]);
    let first = lcg(3 ^ 0x1234_5678_9abc_def0);
    assert_eq!(herd.remotes[0].cats[0], RemoteCat::new(first));
    let kept = herd.remotes[1].cats[0];
    herd.reconcile_remote(&vec![peer("c", 1), peer("b", 3)]);
    assert_eq!(shape(&herd.remotes), vec![("b", 3), ("c", 1)]);
    assert_eq!(herd.remotes[0].cats[0], kept);
    herd.reconcile_remote(&vec![peer("b", 1), peer("c", 0)]);
    assert_eq!(shape(&herd.remotes), vec![("b", 1), ("c", 0)]);
    herd.reconcile_remote(&vec![]);
    assert!(herd.remotes.is_empty());
}

#[test]
fn peers_are_found_by_their_identifier() {
    let peers = vec![peer("a", 1), peer("b", 1), peer("b", 2)];
    assert_eq!(find_peer(&peers, "b"), Some(1));
    assert_eq!(find_peer(&peers, "a"), Some(0));
    assert_eq!(find_peer(&peers, "c"), None);
}

#[test]
fn drawings_of_cats_are_accepted() {
    let half = Coord { bits: 0.5f32.to_bits() };
    let drawing = render_of((7, 3), half, half);
    assert_eq!((drawing.sprite_x, drawing.sprite_y), (7, 3));
    assert_eq!(drawing.x, half);
    assert_eq!(sanitize_renders(vec![drawing], 1), Some(vec![drawing]));
}

#[test]
fn animations_end_also_at_the_last_frame() {
    let mut cat = CatState::new(1);
    cat.idle_anim = Some(IdleAnim::Groom);
    cat.idle_frame = u32::MAX;
    assert_eq!(cat.advance(senses(false, true), false, true), Act::Idle);
    assert_eq!(cat.sprite, SCRATCH_SELF[0]);
    assert_eq!(cat.idle_anim, None);
    assert_eq!(cat.idle_frame, 1);
}
