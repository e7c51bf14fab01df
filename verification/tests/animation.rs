use renderer::animation::{Animation, Animations, Frame, LoopMode};
use renderer::draw::{Flip, ImageDraw, SrcRect};
use renderer::handle::Handle;
use renderer::plain_sprite;
use renderer::sprite::{AnimatedSprite, Sprite, SpriteAnimator, SpriteSource};
use renderer::time::Duration;

fn ms(n: u64) -> Duration {
    Duration::from_millis(n)
}

/// Three frames of 100 ms, told apart by their x coordinate.
fn three_frames(mode: LoopMode) -> Animation {
    Animation::new(Vec::new(), mode)
        .add_frame_d(0, 0, 16, 16, ms(100))
        .add_frame_d(16, 0, 16, 16, ms(100))
        .add_frame_d(32, 0, 16, 16, ms(100))
}

fn animator_with(name: &str, anim: Animation) -> SpriteAnimator {
    SpriteAnimator::new(Animations::new().add_animation(name, anim))
}

fn frame_x(a: &SpriteAnimator) -> Option<u32> {
    a.frame().map(|f| f.x)
}

#[test]
fn frame_new_keeps_fields() {
    let f = Frame::new(1, 2, 3, 4, ms(5));
    assert_eq!((f.x, f.y, f.width, f.height), (1, 2, 3, 4));
    assert_eq!(f.duration, ms(5));
}

#[test]
fn animation_builders_and_getters() {
    let a = three_frames(LoopMode::Once);
    assert_eq!(a.len(), 3);
    assert!(!a.is_empty());
    assert_eq!(a.loop_mode(), LoopMode::Once);
    assert_eq!(a.frame(1).map(|f| f.x), Some(16));
    assert_eq!(a.frame(3), None);
    assert_eq!(a.frames().len(), 3);
    let b = Animation::new(Vec::new(), LoopMode::Loop).add_frame(Frame::new(7, 0, 1, 1, ms(1)));
    assert_eq!(b.frames()[0].x, 7);
    assert!(Animation::default().is_empty());
    assert_eq!(LoopMode::default(), LoopMode::Loop);
}

#[test]
fn animations_by_name() {
    let set = Animations::new()
        .add_animation("walk", three_frames(LoopMode::Loop))
        .add_animation("idle", Animation::new(Vec::new(), LoopMode::Loop));
    assert_eq!(set.len(), 2);
    assert!(set.contains("walk"));
    assert!(!set.contains("run"));
    assert_eq!(set.get("walk").map(|a| a.len()), Some(3));
    assert!(set.get("run").is_none());
    // Adding under an existing name replaces the animation.
    let set = set.add_animation("idle", three_frames(LoopMode::Once));
    assert_eq!(set.len(), 2);
    assert_eq!(set.get("idle").map(|a| a.loop_mode()), Some(LoopMode::Once));
    assert_eq!(set.iter().len(), 2);
    assert!(Animations::new().is_empty());
}

#[test]
fn new_animator_plays_nothing() {
    let a = animator_with("walk", three_frames(LoopMode::Loop));
    assert_eq!(a.current(), None);
    assert_eq!(a.frame(), None);
    assert!(!a.is_finished());
}

#[test]
fn play_unknown_name_is_refused() {
    let mut a = animator_with("walk", three_frames(LoopMode::Loop));
    assert!(!a.play("run", false));
    assert_eq!(a.current(), None);
}

#[test]
fn loop_steps_over_several_frames_in_one_update() {
    let mut a = animator_with("walk", three_frames(LoopMode::Loop));
    assert!(a.play("walk", false));
    assert_eq!(frame_x(&a), Some(0));
    a.update(ms(250));
    assert_eq!(frame_x(&a), Some(32));
    // 50 ms are carried over; 50 more wrap around to the first frame.
    a.update(ms(50));
    assert_eq!(frame_x(&a), Some(0));
    assert!(!a.is_finished());
}

#[test]
fn once_stops_on_last_frame_and_finishes() {
    let mut a = animator_with("die", three_frames(LoopMode::Once));
    a.play("die", false);
    a.update(ms(1000));
    assert_eq!(frame_x(&a), Some(32));
    assert!(a.is_finished());
    // A finished animation no longer moves.
    a.update(ms(1000));
    assert_eq!(frame_x(&a), Some(32));
    // Playing it again without restart starts it over, since it finished.
    a.play("die", false);
    assert_eq!(frame_x(&a), Some(0));
    assert!(!a.is_finished());
}

#[test]
fn ping_pong_bounces_at_both_ends() {
    let mut a = animator_with("bob", three_frames(LoopMode::PingPong));
    a.play("bob", false);
    let mut seen = Vec::new();
    for _ in 0..6 {
        a.update(ms(100));
        seen.push(frame_x(&a).unwrap());
    }
    assert_eq!(seen, vec![16, 32, 16, 0, 16, 32]);
}

#[test]
fn zero_length_frames_are_skipped() {
    let anim = Animation::new(Vec::new(), LoopMode::Loop)
        .add_frame_d(0, 0, 1, 1, ms(0))
        .add_frame_d(1, 0, 1, 1, ms(100));
    let mut a = animator_with("blink", anim);
    a.play("blink", false);
    a.update(ms(10));
    assert_eq!(frame_x(&a), Some(1));
}

#[test]
fn zero_step_changes_nothing() {
    let mut a = animator_with("walk", three_frames(LoopMode::Loop));
    a.play("walk", false);
    a.update(ms(150));
    a.update(Duration::zero());
    assert_eq!(frame_x(&a), Some(16));
}

#[test]
fn ordinary_animations_can_step() {
    let mut a = animator_with("bob", three_frames(LoopMode::PingPong));
    assert!(a.can_step());
    a.play("bob", false);
    assert!(a.can_step());
}

#[test]
fn finished_animation_restarts_on_play() {
    let mut a = animator_with("die", three_frames(LoopMode::Once));
    a.play("die", false);
    a.update(ms(1000));
    assert!(a.is_finished());
    assert!(a.play("die", false));
    assert!(!a.is_finished());
    assert_eq!(frame_x(&a), Some(0));
}

#[test]
fn paused_split_updates_match() {
    let mut whole = animator_with("a", three_frames(LoopMode::Loop));
    let mut split = animator_with("a", three_frames(LoopMode::Loop));
    for a in [&mut whole, &mut split] {
        a.play("a", false);
        a.update(ms(150));
        a.pause();
    }
    whole.update(ms(300));
    split.update(ms(100));
    split.update(ms(200));
    assert_eq!(frame_x(&whole), frame_x(&split));
    whole.resume();
    split.resume();
    whole.update(ms(50));
    split.update(ms(50));
    assert_eq!(frame_x(&whole), Some(32));
    assert_eq!(frame_x(&split), Some(32));
}

#[test]
fn paused_clock_does_not_run() {
    let mut a = animator_with("walk", three_frames(LoopMode::Loop));
    a.play("walk", false);
    a.pause();
    a.update(ms(1000));
    assert_eq!(frame_x(&a), Some(0));
    a.resume();
    a.update(ms(100));
    assert_eq!(frame_x(&a), Some(16));
}

#[test]
fn play_same_animation_resumes_unless_restarted() {
    let mut a = animator_with("walk", three_frames(LoopMode::Loop));
    a.play("walk", false);
    a.update(ms(150));
    a.pause();
    assert!(a.play("walk", false));
    assert_eq!(frame_x(&a), Some(16));
    // Resumed: time runs again.
    a.update(ms(50));
    assert_eq!(frame_x(&a), Some(32));
    assert!(a.play("walk", true));
    assert_eq!(frame_x(&a), Some(0));
}

#[test]
fn set_frame_jumps_and_checks_range() {
    let mut a = animator_with("walk", three_frames(LoopMode::Loop));
    assert!(!a.set_frame(1));
    a.play("walk", false);
    assert!(a.set_frame(2));
    assert_eq!(frame_x(&a), Some(32));
    assert!(!a.set_frame(3));
    assert_eq!(frame_x(&a), Some(32));
}

#[test]
fn stop_clears_selection() {
    let mut a = animator_with("walk", three_frames(LoopMode::Loop));
    a.play("walk", false);
    a.update(ms(120));
    a.stop();
    assert_eq!(a.current(), None);
    assert_eq!(a.frame(), None);
    a.update(ms(500));
    assert_eq!(a.frame(), None);
}

#[test]
fn empty_animation_has_no_frame() {
    let mut a = animator_with("none", Animation::new(Vec::new(), LoopMode::Loop));
    assert!(a.play("none", false));
    a.update(ms(100));
    assert_eq!(a.frame(), None);
    assert_eq!(a.current(), Some("none"));
}

#[test]
fn animated_sprite_forwards_updates() {
    let set = Animations::new().add_animation("walk", three_frames(LoopMode::Loop));
    let mut s = AnimatedSprite::new(Handle::new(3, 1), set);
    assert!(s.animator.play("walk", false));
    s.update(ms(100));
    assert_eq!(s.animator.frame().map(|f| f.x), Some(16));
    assert_eq!(s.image, Handle::new(3, 1));
}

#[test]
fn sprite_builders() {
    let s = Sprite::new(Handle::new(1, 0)).with_region(1, 2, 3, 4).with_flip_x(true);
    assert_eq!(s.source, SpriteSource::region(1, 2, 3, 4));
    assert!(s.flip_x && !s.flip_y);
    let t = Sprite::new(Handle::new(1, 0)).with_source(SpriteSource::Whole).with_flip_y(true);
    assert_eq!(t.source, SpriteSource::Whole);
    assert!(t.flip_y);
    assert_eq!(SpriteSource::default(), SpriteSource::Whole);
}

#[test]
fn durations() {
    assert_eq!(Duration::from_secs(2).as_nanos(), 2_000_000_000);
    assert_eq!(Duration::new(1, 5).as_nanos(), 1_000_000_005);
    assert_eq!(ms(3).saturating_add(ms(4)), ms(7));
    assert_eq!(Duration::max_value().saturating_add(ms(1)), Duration::max_value());
    assert_eq!(ms(10).minus(ms(4)), ms(6));
    assert!(ms(1).is_shorter_than(&ms(2)));
    assert!(Duration::from_total_nanos(u128::MAX).is_none());
    assert_eq!(Duration::from_total_nanos(5), Some(Duration::from_nanos(5)));
}

#[test]
fn split_updates_match_one_update() {
    for mode in [LoopMode::Loop, LoopMode::Once, LoopMode::PingPong] {
        let mut whole = animator_with("a", three_frames(mode));
        let mut split = animator_with("a", three_frames(mode));
        whole.play("a", false);
        split.play("a", false);
        whole.update(ms(330));
        split.update(ms(250));
        split.update(ms(80));
        assert_eq!(frame_x(&whole), frame_x(&split));
        assert_eq!(whole.is_finished(), split.is_finished());
        // And both keep agreeing afterwards: the leftover time is the same.
        whole.update(ms(70));
        split.update(ms(70));
        assert_eq!(frame_x(&whole), frame_x(&split));
    }
}

/// With the per-update step limit (32 steps for a short animation) a single
/// huge step drops time that two smaller steps would have used.
#[test]
fn step_limit_caps_one_update() {
    let anim = Animation::new(Vec::new(), LoopMode::Loop)
        .add_frame_d(0, 0, 1, 1, Duration::from_nanos(1))
        .add_frame_d(1, 0, 1, 1, Duration::from_nanos(1))
        .add_frame_d(2, 0, 1, 1, Duration::from_nanos(1));
    let mut whole = animator_with("a", anim.clone());
    let mut split = animator_with("a", anim);
    whole.play("a", false);
    split.play("a", false);
    whole.update(Duration::from_nanos(40));
    split.update(Duration::from_nanos(20));
    split.update(Duration::from_nanos(20));
    assert_eq!(frame_x(&whole), Some(2));
    assert_eq!(frame_x(&split), Some(1));
}

#[test]
fn animations_can_be_changed_in_place() {
    let mut set = Animations::new().add_animation("walk", three_frames(LoopMode::Loop));
    if let Some(a) = set.get_mut("walk") {
        *a = a.clone().add_frame_d(48, 0, 16, 16, ms(100));
    }
    assert_eq!(set.get("walk").map(|a| a.len()), Some(4));
    assert_eq!(set.len(), 1);
    assert!(set.get_mut("run").is_none());
}

#[test]
fn sprite_draw_calls() {
    let img = Handle::new(1, 0);
    assert_eq!(Sprite::new(img).draw_call(), ImageDraw::Whole);
    let region = Sprite::new(img).with_region(1, 2, 3, 4);
    assert_eq!(region.draw_call(), ImageDraw::Region { src: SrcRect { x: 1, y: 2, w: 3, h: 4 } });
    assert_eq!(
        region.with_flip_y(true).draw_call(),
        ImageDraw::Mirrored { src: SrcRect { x: 1, y: 2, w: 3, h: 4 }, flip: Flip::vertical() }
    );
    let mut s = AnimatedSprite::new(img, Animations::new().add_animation("walk", three_frames(LoopMode::Loop)));
    assert_eq!(s.draw_call(), ImageDraw::Whole);
    s.animator.play("walk", false);
    s.update(ms(100));
    assert_eq!(
        s.draw_call(),
        ImageDraw::Mirrored { src: SrcRect { x: 16, y: 0, w: 16, h: 16 }, flip: Flip::none() }
    );
}

#[test]
fn plain_animator_keeps_a_finished_animation_on_replay() {
    let set = Animations::new()
        .add_animation("o", Animation::new(Vec::new(), LoopMode::Once).add_frame_d(0, 0, 1, 1, ms(100)).add_frame_d(1, 0, 1, 1, ms(100)))
        .add_animation("l", three_frames(LoopMode::Loop));
    let mut a = plain_sprite::SpriteAnimator::new(set);
    assert!(a.play("o", false));
    a.update(ms(1000));
    assert!(a.is_finished());
    assert_eq!(a.frame().map(|f| f.x), Some(1));
    // The same animation without restart: nothing changes.
    assert!(a.play("o", false));
    assert!(a.is_finished());
    assert_eq!(a.frame().map(|f| f.x), Some(1));
    // A restart starts it over.
    assert!(a.play("o", true));
    assert!(!a.is_finished());
    assert_eq!(a.frame().map(|f| f.x), Some(0));
    // Another animation starts from its first frame; unknown names are refused.
    assert!(a.play("l", false));
    assert_eq!(a.current(), Some("l"));
    assert!(!a.play("nope", false));
    a.update(ms(150));
    assert_eq!(a.frame().map(|f| f.x), Some(16));
    // Playing the running animation again keeps its place.
    assert!(a.play("l", false));
    assert_eq!(a.frame().map(|f| f.x), Some(16));
    assert!(a.can_step());
    a.stop();
    assert_eq!(a.current(), None);
}

#[test]
fn plain_animated_sprite_draws_its_frame() {
    let mut s = plain_sprite::AnimatedSprite::new(Handle::new(2, 0), Animations::new().add_animation("walk", three_frames(LoopMode::Loop)));
    assert_eq!(s.draw_call(), ImageDraw::Whole);
    s.animator.play("walk", false);
    s.flip_x = true;
    s.update(ms(250));
    assert_eq!(s.draw_call(), ImageDraw::Mirrored { src: SrcRect { x: 32, y: 0, w: 16, h: 16 }, flip: Flip::horizontal() });
}

#[test]
fn frame_default_and_builders() {
    let f = Frame::default();
    assert_eq!((f.x, f.y, f.width, f.height), (0, 0, 0, 0));
    assert!(f.duration.is_zero());
    let g = f.with_x(1).with_y(2).with_width(3).with_height(4).with_duration(ms(5));
    assert_eq!(g, Frame::new(1, 2, 3, 4, ms(5)));
    let a = Animation::default().with_frames(vec![g]).with_loop_mode(LoopMode::PingPong);
    assert_eq!(a.len(), 1);
    assert_eq!(a.loop_mode(), LoopMode::PingPong);
}
