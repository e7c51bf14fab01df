use vstd::prelude::*;

use crate::animation::{Animation, Animations, Frame, LoopMode};
use crate::draw::{Flip, ImageDraw, SrcRect};
use crate::handle::Handle;
use crate::time::{saturating_sum, Duration, MAX_NANOS};

verus! {

/// Pixel-space source for a sprite.
#[derive(Clone, Copy, PartialEq, Eq, Structural, Debug)]
pub enum SpriteSource {
    /// Draw the full image.
    Whole,
    /// Draw a sub-rectangle of the image (in pixels, relative to the image).
    Region { x: u32, y: u32, w: u32, h: u32 },
}

impl Default for SpriteSource {
    fn default() -> (s: SpriteSource)
        ensures
            s == SpriteSource::Whole,
    {
        SpriteSource::Whole
    }
}

impl SpriteSource {
    #[inline]
    pub fn region(x: u32, y: u32, w: u32, h: u32) -> (s: SpriteSource)
        ensures
            s == (SpriteSource::Region { x, y, w, h }),
    {
        SpriteSource::Region { x, y, w, h }
    }
}

/// Render-time sprite: an image handle, the part of the image to draw and
/// whether to mirror it.
#[derive(Clone, Copy, PartialEq, Eq, Structural, Debug)]
pub struct Sprite {
    pub image: Handle,
    pub source: SpriteSource,
    /// Mirror the sprite horizontally.
    pub flip_x: bool,
    /// Mirror the sprite vertically.
    pub flip_y: bool,
}

impl Sprite {
    /// A sprite that draws all of `image`, unmirrored.
    #[inline]
    pub fn new(image: Handle) -> (s: Sprite)
        ensures
            s == (Sprite { image, source: SpriteSource::Whole, flip_x: false, flip_y: false }),
    {
        Sprite { image, source: SpriteSource::Whole, flip_x: false, flip_y: false }
    }

    #[inline]
    pub fn with_source(self, source: SpriteSource) -> (s: Sprite)
        ensures
            s == (Sprite { source, ..self }),
    {
        Sprite { source, ..self }
    }

    #[inline]
    pub fn with_region(self, x: u32, y: u32, w: u32, h: u32) -> (s: Sprite)
        ensures
            s == (Sprite { source: SpriteSource::Region { x, y, w, h }, ..self }),
    {
        Sprite { source: SpriteSource::Region { x, y, w, h }, ..self }
    }

    #[inline]
    pub fn with_flip_x(self, flip: bool) -> (s: Sprite)
        ensures
            s == (Sprite { flip_x: flip, ..self }),
    {
        Sprite { flip_x: flip, ..self }
    }

    #[inline]
    pub fn with_flip_y(self, flip: bool) -> (s: Sprite)
        ensures
            s == (Sprite { flip_y: flip, ..self }),
    {
        Sprite { flip_y: flip, ..self }
    }

    /// How the sprite is drawn: the whole image; or its region, as a
    /// mirrored draw when a flip is set and as a plain region otherwise.
    pub fn draw_call(&self) -> (d: ImageDraw)
        ensures
            d == (match self.source {
                SpriteSource::Whole => ImageDraw::Whole,
                SpriteSource::Region { x, y, w, h } => if self.flip_x || self.flip_y {
                    ImageDraw::Mirrored {
                        src: SrcRect { x, y, w, h },
                        flip: Flip { x: self.flip_x, y: self.flip_y },
                    }
                } else {
                    ImageDraw::Region { src: SrcRect { x, y, w, h } }
                },
            }),
    {
        match self.source {
            SpriteSource::Whole => ImageDraw::Whole,
            SpriteSource::Region { x, y, w, h } => {
                if self.flip_x || self.flip_y {
                    ImageDraw::Mirrored { src: SrcRect { x, y, w, h }, flip: Flip { x: self.flip_x, y: self.flip_y } }
                } else {
                    ImageDraw::Region { src: SrcRect { x, y, w, h } }
                }
            },
        }
    }
}

/// The playback state of a [`SpriteAnimator`], as plain values.
pub struct AnimatorState {
    /// Name of the animation being played.
    pub current: Option<Seq<char>>,
    /// Index of the frame on screen.
    pub frame_index: nat,
    /// Time accumulated on the frame on screen, in nanoseconds.
    pub elapsed: nat,
    /// Whether time is held still.
    pub paused: bool,
    /// Direction of travel for ping-pong playback: `1` or `-1`.
    pub dir: int,
    /// Whether a play-once animation reached its end.
    pub finished: bool,
}

/// The state right after a stop: nothing selected, clock cleared.
pub open spec fn stopped_state() -> AnimatorState {
    AnimatorState { current: None, frame_index: 0, elapsed: 0, paused: false, dir: 1, finished: false }
}

/// The state right after (re)starting `name` from its first frame.
pub open spec fn started_state(name: Seq<char>) -> AnimatorState {
    AnimatorState { current: Some(name), frame_index: 0, elapsed: 0, paused: false, dir: 1, finished: false }
}

/// The frame index (and, for ping-pong, the direction and for play-once the
/// finished flag) after one step forward in an animation of `len` frames.
pub open spec fn advanced(st: AnimatorState, mode: LoopMode, len: nat) -> AnimatorState {
    if len <= 1 {
        AnimatorState { frame_index: 0, ..st }
    } else {
        match mode {
            LoopMode::Loop => AnimatorState { frame_index: (st.frame_index + 1) % len, ..st },
            LoopMode::Once => if st.frame_index + 1 >= len {
                AnimatorState { frame_index: (len - 1) as nat, finished: true, ..st }
            } else {
                AnimatorState { frame_index: st.frame_index + 1, ..st }
            },
            LoopMode::PingPong => {
                let next = st.frame_index + st.dir;
                if next >= len {
                    AnimatorState { dir: -1, frame_index: (len - 2) as nat, ..st }
                } else if next < 0 {
                    AnimatorState { dir: 1, frame_index: 1, ..st }
                } else {
                    AnimatorState { frame_index: next as nat, ..st }
                }
            },
        }
    }
}

/// Consume accumulated time frame by frame, taking at most `budget` steps.
/// A frame of zero length is skipped without consuming time; when the
/// budget runs out the remaining time is dropped.
pub open spec fn consume(frames: Seq<Frame>, mode: LoopMode, st: AnimatorState, budget: nat) -> AnimatorState
    decreases budget,
{
    if st.finished {
        st
    } else if budget == 0 {
        AnimatorState { elapsed: 0, ..st }
    } else if st.frame_index >= frames.len() {
        AnimatorState { frame_index: 0, elapsed: 0, ..st }
    } else {
        let d = frames[st.frame_index as int].duration@;
        if d == 0 {
            consume(frames, mode, advanced(st, mode, frames.len()), (budget - 1) as nat)
        } else if st.elapsed < d {
            st
        } else {
            consume(
                frames,
                mode,
                advanced(AnimatorState { elapsed: (st.elapsed - d) as nat, ..st }, mode, frames.len()),
                (budget - 1) as nat,
            )
        }
    }
}

/// Most steps one update may take through an animation of `len` frames:
/// eight per frame, but at least 32 and at most 2048.
pub open spec fn step_budget(len: nat) -> nat {
    let eight = if len * 8 > usize::MAX { usize::MAX as nat } else { len * 8 };
    let lo = if eight < 32 { 32 } else { eight };
    if lo > 2048 { 2048 } else { lo }
}

/// The state after letting `dt` nanoseconds pass.
pub open spec fn updated(anims: Map<Seq<char>, Animation>, st: AnimatorState, dt: nat) -> AnimatorState {
    if dt == 0 || st.current is None || st.finished {
        st
    } else if !anims.contains_key(st.current->0) {
        stopped_state()
    } else {
        let anim = anims[st.current->0];
        let frames = anim.spec_frames();
        if frames.len() == 0 {
            st
        } else {
            let ticked = if st.paused { st } else { AnimatorState { elapsed: saturating_sum(st.elapsed, dt), ..st } };
            consume(frames, anim.spec_loop_mode(), ticked, step_budget(frames.len()))
        }
    }
}

/// Whether stepping `anim` can be done with the 32-bit signed arithmetic of
/// ping-pong playback: a ping-pong animation has at most `i32::MAX` frames.
pub open spec fn steppable(anim: Animation) -> bool {
    anim.spec_loop_mode() == LoopMode::PingPong ==> anim.spec_frames().len() <= i32::MAX
}

/// Whether the animation selected in `st`, if it exists, is [`steppable`].
pub open spec fn current_steppable(anims: Map<Seq<char>, Animation>, st: AnimatorState) -> bool {
    match st.current {
        Some(n) => anims.contains_key(n) ==> steppable(anims[n]),
        None => true,
    }
}

/// The frame on screen in playback state `st`: the current frame of the
/// selected animation, if one is selected and has that frame.
pub open spec fn frame_on_screen(anims: Map<Seq<char>, Animation>, st: AnimatorState) -> Option<Frame> {
    match st.current {
        Some(n) => if anims.contains_key(n) && st.frame_index < anims[n].spec_frames().len() {
            Some(anims[n].spec_frames()[st.frame_index as int])
        } else {
            None
        },
        None => None,
    }
}

/// Runtime state for playing one animation out of an [`Animations`] set.
///
/// Playback is frame-rate independent: a large time step moves over several
/// frames at once. The clock can be paused: [`Self::pause`] holds it still,
/// and [`Self::resume`] or playing the same animation again lets it run.
/// Time is kept exactly, in nanoseconds.
#[derive(Clone, Debug)]
pub struct SpriteAnimator {
    animations: Animations,
    current: Option<String>,
    frame_index: usize,
    frame_elapsed: Duration,
    paused: bool,
    dir: i32,
    finished: bool,
}

impl SpriteAnimator {
    /// The animations this animator can play.
    pub closed spec fn spec_animations(&self) -> Map<Seq<char>, Animation> {
        self.animations@
    }

    /// The playback state.
    pub closed spec fn state(&self) -> AnimatorState {
        AnimatorState {
            current: match self.current {
                Some(s) => Some(s@),
                None => None,
            },
            frame_index: self.frame_index as nat,
            elapsed: self.frame_elapsed@,
            paused: self.paused,
            dir: self.dir as int,
            finished: self.finished,
        }
    }

    /// Internal consistency: the animation set is well formed, the direction
    /// is a unit step, and a selected animation exists and has its frame
    /// index in range (an empty animation sits on index 0).
    pub closed spec fn wf(&self) -> bool {
        &&& self.animations.wf()
        &&& (self.dir == 1 || self.dir == -1)
        &&& match self.current {
            Some(name) => {
                &&& self.animations@.contains_key(name@)
                &&& (self.frame_index < self.animations@[name@].spec_frames().len()
                    || self.frame_index == 0)
            },
            None => self.frame_index == 0 && !self.finished,
        }
    }

    /// An animator over `animations`, with nothing playing.
    #[inline]
    pub fn new(animations: Animations) -> (a: SpriteAnimator)
        requires
            animations.wf(),
        ensures
            a.wf(),
            a.spec_animations() == animations@,
            a.state() == stopped_state(),
    {
        SpriteAnimator {
            animations,
            current: None,
            frame_index: 0,
            frame_elapsed: Duration::zero(),
            paused: false,
            dir: 1,
            finished: false,
        }
    }

    /// The name of the animation being played, if any.
    #[inline]
    pub fn current(&self) -> (r: Option<&str>)
        ensures
            r matches Some(s) ==> self.state().current == Some(s@),
            r is None ==> self.state().current is None,
    {
        match &self.current {
            Some(s) => Some(s.as_str()),
            None => None,
        }
    }

    /// Whether a play-once animation has reached its last frame.
    #[inline]
    pub fn is_finished(&self) -> (b: bool)
        ensures
            b == self.state().finished,
    {
        self.finished
    }

    /// A selected animation is one of the animations the animator holds.
    pub proof fn lemma_current_is_known(&self)
        requires
            self.wf(),
        ensures
            self.state().current matches Some(n) ==> self.spec_animations().contains_key(n),
    {
    }

    /// Whether [`Self::update`] can step the selected animation: true unless
    /// it is a ping-pong animation of more than `i32::MAX` frames, which the
    /// 32-bit direction arithmetic cannot step.
    pub fn can_step(&self) -> (b: bool)
        requires
            self.wf(),
        ensures
            b == current_steppable(self.spec_animations(), self.state()),
    {
        match &self.current {
            Some(name) => match self.animations.get(name.as_str()) {
                Some(anim) => !(anim.loop_mode() == LoopMode::PingPong && anim.len() > i32::MAX as usize),
                None => true,
            },
            None => true,
        }
    }

    /// Start playing `name`.
    ///
    /// When `name` is already playing, has not finished and `restart` is
    /// `false`, playback just resumes where it is. Otherwise `name` starts
    /// over from its first frame. Returns `false`, changing nothing, when
    /// there is no animation called `name`.
    pub fn play(&mut self, name: &str, restart: bool) -> (ok: bool)
        requires
            old(self).wf(),
        ensures
            final(self).wf(),
            final(self).spec_animations() == old(self).spec_animations(),
            ok == old(self).spec_animations().contains_key(name@),
            !ok ==> final(self).state() == old(self).state(),
            ok && old(self).state().current == Some(name@) && !restart && !old(self).state().finished
                ==> final(self).state() == (AnimatorState { paused: false, ..old(self).state() }),
            ok && !(old(self).state().current == Some(name@) && !restart && !old(self).state().finished)
                ==> final(self).state() == started_state(name@),
    {
        if !self.animations.contains(name) {
            return false;
        }
        let key = name.to_owned();
        let same = match &self.current {
            Some(c) => *c == key,
            None => false,
        };
        if same && !restart && !self.finished {
            self.paused = false;
            return true;
        }
        self.current = Some(key);
        self.frame_index = 0;
        self.frame_elapsed = Duration::zero();
        self.paused = false;
        self.dir = 1;
        self.finished = false;
        true
    }

    /// Hold the clock still: updates let no time pass until [`Self::resume`].
    #[inline]
    pub fn pause(&mut self)
        ensures
            final(self).state() == (AnimatorState { paused: true, ..old(self).state() }),
            final(self).spec_animations() == old(self).spec_animations(),
            old(self).wf() ==> final(self).wf(),
    {
        self.paused = true;
    }

    /// Let the clock run again.
    #[inline]
    pub fn resume(&mut self)
        ensures
            final(self).state() == (AnimatorState { paused: false, ..old(self).state() }),
            final(self).spec_animations() == old(self).spec_animations(),
            old(self).wf() ==> final(self).wf(),
    {
        self.paused = false;
    }

    /// Deselect the animation and clear the clock.
    #[inline]
    pub fn stop(&mut self)
        requires
            old(self).wf(),
        ensures
            final(self).wf(),
            final(self).state() == stopped_state(),
            final(self).spec_animations() == old(self).spec_animations(),
    {
        self.current = None;
        self.frame_index = 0;
        self.frame_elapsed = Duration::zero();
        self.paused = false;
        self.dir = 1;
        self.finished = false;
    }

    /// The frame on screen, if an animation is selected and has frames.
    #[inline]
    pub fn frame(&self) -> (f: Option<Frame>)
        requires
            self.wf(),
        ensures
            f == frame_on_screen(self.spec_animations(), self.state()),
    {
        match &self.current {
            Some(name) => match self.animations.get(name.as_str()) {
                Some(anim) => anim.frame(self.frame_index),
                None => None,
            },
            None => None,
        }
    }

    /// Jump to frame `frame_index` of the animation being played and clear
    /// the clock. Returns `false`, changing nothing, when nothing is being
    /// played or the index is out of range.
    pub fn set_frame(&mut self, frame_index: usize) -> (ok: bool)
        requires
            old(self).wf(),
        ensures
            final(self).wf(),
            final(self).spec_animations() == old(self).spec_animations(),
            ok == (match old(self).state().current {
                Some(n) => frame_index < old(self).spec_animations()[n].spec_frames().len(),
                None => false,
            }),
            !ok ==> final(self).state() == old(self).state(),
            ok ==> final(self).state() == (AnimatorState {
                frame_index: frame_index as nat,
                elapsed: 0,
                finished: false,
                ..old(self).state()
            }),
    {
        let len = match &self.current {
            Some(name) => match self.animations.get(name.as_str()) {
                Some(anim) => anim.len(),
                None => return false,
            },
            None => return false,
        };
        if frame_index >= len {
            return false;
        }
        self.frame_index = frame_index;
        self.frame_elapsed = Duration::zero();
        self.finished = false;
        true
    }
    /// Let `dt` pass: accumulate it on the frame on screen (unless paused)
    /// and step through as many frames as the accumulated time covers.
    ///
    /// Nothing happens for an empty step, when nothing is selected, when a
    /// play-once animation has finished, or when the animation has no frames.
    pub fn update(&mut self, dt: Duration)
        requires
            old(self).wf(),
            current_steppable(old(self).spec_animations(), old(self).state()),
        ensures
            final(self).wf(),
            final(self).spec_animations() == old(self).spec_animations(),
            final(self).state() == updated(old(self).spec_animations(), old(self).state(), dt@),
    {
        if dt.is_zero() {
            return;
        }
        if self.current.is_none() {
            return;
        }
        if self.finished {
            return;
        }
        let ghost anims = self.animations@;
        let ghost st0 = self.state();
        let anim = match &self.current {
            Some(name) => match self.animations.get(name.as_str()) {
                Some(a) => a,
                None => {
                    self.stop();
                    return;
                },
            },
            None => {
                return;
            },
        };
        if anim.is_empty() {
            return;
        }
        let len = anim.len();
        let loop_mode = anim.loop_mode();
        let ghost frames = anim.spec_frames();
        if !self.paused {
            self.frame_elapsed = self.frame_elapsed.saturating_add(dt);
        }
        let eight = match len.checked_mul(8) {
            Some(v) => v,
            None => usize::MAX,
        };
        let lo = if eight < 32 { 32 } else { eight };
        let max_steps: usize = if lo > 2048 { 2048 } else { lo };
        let ghost target = consume(frames, loop_mode, self.state(), step_budget(len as nat));
        let mut steps: usize = 0;
        let mut done = false;
        while !done && !self.finished
            invariant
                frames == anim.spec_frames(),
                len == frames.len(),
                len > 0,
                loop_mode == anim.spec_loop_mode(),
                loop_mode == LoopMode::PingPong ==> len <= i32::MAX,
                max_steps == step_budget(len as nat),
                max_steps <= 2048,
                steps <= max_steps + 1,
                !done ==> steps <= max_steps,
                self.animations@ == anims,
                self.animations.wf(),
                self.current == old(self).current,
                self.current matches Some(nm) && anims.contains_key(nm@) && anims[nm@] == *anim,
                self.dir == 1 || self.dir == -1,
                self.frame_index < len || self.frame_index == 0,
                done ==> self.state() == target,
                !done ==> consume(frames, loop_mode, self.state(), (max_steps - steps) as nat) == target,
            decreases max_steps + 1 - steps,
        {
            steps = steps + 1;
            if steps > max_steps {
                self.frame_elapsed = Duration::zero();
                done = true;
            } else {
                match anim.frame(self.frame_index) {
                    None => {
                        self.frame_index = 0;
                        self.frame_elapsed = Duration::zero();
                        done = true;
                    },
                    Some(frame) => {
                        if frame.duration.is_zero() {
                            advance(&mut self.frame_index, &mut self.dir, &mut self.finished, loop_mode, len);
                        } else if self.frame_elapsed.is_shorter_than(&frame.duration) {
                            done = true;
                        } else {
                            self.frame_elapsed = self.frame_elapsed.minus(frame.duration);
                            advance(&mut self.frame_index, &mut self.dir, &mut self.finished, loop_mode, len);
                        }
                    },
                }
            }
        }
    }
}

/// Convenience wrapper: an image handle, an animator and mirroring flags.
#[derive(Clone, Debug)]
pub struct AnimatedSprite {
    pub image: Handle,
    pub animator: SpriteAnimator,
    pub flip_x: bool,
    pub flip_y: bool,
}

impl AnimatedSprite {
    /// A sprite of `image` that can play `animations`; nothing plays yet.
    #[inline]
    pub fn new(image: Handle, animations: Animations) -> (s: AnimatedSprite)
        requires
            animations.wf(),
        ensures
            s.image == image,
            s.animator.wf(),
            s.animator.spec_animations() == animations@,
            s.animator.state() == stopped_state(),
            !s.flip_x,
            !s.flip_y,
    {
        AnimatedSprite { image, animator: SpriteAnimator::new(animations), flip_x: false, flip_y: false }
    }

    /// Let `dt` pass for the animator.
    #[inline]
    pub fn update(&mut self, dt: Duration)
        requires
            old(self).animator.wf(),
            current_steppable(old(self).animator.spec_animations(), old(self).animator.state()),
        ensures
            final(self).animator.wf(),
            final(self).animator.spec_animations() == old(self).animator.spec_animations(),
            final(self).animator.state() == updated(
                old(self).animator.spec_animations(),
                old(self).animator.state(),
                dt@,
            ),
            final(self).image == old(self).image,
            final(self).flip_x == old(self).flip_x,
            final(self).flip_y == old(self).flip_y,
    {
        self.animator.update(dt);
    }

    /// How the sprite is drawn: the frame on screen as a part of the image,
    /// mirrored as the flags say; the whole image when nothing plays.
    pub fn draw_call(&self) -> (d: ImageDraw)
        requires
            self.animator.wf(),
        ensures
            d == (match frame_on_screen(self.animator.spec_animations(), self.animator.state()) {
                Some(f) => ImageDraw::Mirrored {
                    src: SrcRect { x: f.x, y: f.y, w: f.width, h: f.height },
                    flip: Flip { x: self.flip_x, y: self.flip_y },
                },
                None => ImageDraw::Whole,
            }),
    {
        match self.animator.frame() {
            Some(f) => ImageDraw::Mirrored {
                src: SrcRect { x: f.x, y: f.y, w: f.width, h: f.height },
                flip: Flip { x: self.flip_x, y: self.flip_y },
            },
            None => ImageDraw::Whole,
        }
    }
}

proof fn lemma_consume_keeps_pause(frames: Seq<Frame>, mode: LoopMode, st: AnimatorState, budget: nat)
    ensures
        consume(frames, mode, st, budget).paused == st.paused,
        consume(frames, mode, st, budget).current == st.current,
    decreases budget,
{
    if !st.finished && budget > 0 && st.frame_index < frames.len() {
        let d = frames[st.frame_index as int].duration@;
        if d == 0 {
            lemma_consume_keeps_pause(frames, mode, advanced(st, mode, frames.len()), (budget - 1) as nat);
        } else if st.elapsed >= d {
            lemma_consume_keeps_pause(
                frames,
                mode,
                advanced(AnimatorState { elapsed: (st.elapsed - d) as nat, ..st }, mode, frames.len()),
                (budget - 1) as nat,
            );
        }
    }
}

/// Letting time pass never pauses the clock: an unpaused animator stays
/// unpaused.
pub proof fn lemma_update_keeps_unpaused(anims: Map<Seq<char>, Animation>, st: AnimatorState, dt: nat)
    requires
        !st.paused,
    ensures
        !updated(anims, st, dt).paused,
{
    if dt != 0 && st.current is Some && !st.finished && anims.contains_key(st.current->0) {
        let anim = anims[st.current->0];
        let frames = anim.spec_frames();
        if frames.len() != 0 {
            let ticked = AnimatorState { elapsed: saturating_sum(st.elapsed, dt), ..st };
            lemma_consume_keeps_pause(frames, anim.spec_loop_mode(), ticked, step_budget(frames.len()));
        }
    }
}

/// One step of ping-pong playback moves exactly one frame: forward while
/// going forward, backward while going back, and at either end it turns
/// around onto the neighbouring frame (from the last frame onto the one
/// before it, from the first onto the one after it).
pub proof fn lemma_ping_pong_steps_one_frame(st: AnimatorState, len: nat)
    requires
        len >= 2,
        st.frame_index < len,
        st.dir == 1 || st.dir == -1,
    ensures
        ({
            let n = advanced(st, LoopMode::PingPong, len);
            &&& n.frame_index < len
            &&& (n.frame_index == st.frame_index + 1 || n.frame_index + 1 == st.frame_index)
            &&& n.dir == 1 || n.dir == -1
            &&& n.frame_index == st.frame_index + n.dir
            &&& (st.dir == 1 && st.frame_index == len - 1 ==> n.frame_index == len - 2 && n.dir == -1)
            &&& (st.dir == -1 && st.frame_index == 0 ==> n.frame_index == 1 && n.dir == 1)
            &&& (st.dir == 1 && st.frame_index + 1 < len ==> n.frame_index == st.frame_index + 1 && n.dir == 1)
            &&& (st.dir == -1 && st.frame_index > 0 ==> n.frame_index + 1 == st.frame_index && n.dir == -1)
            &&& !n.finished == !st.finished
        }),
{
}

/// Ping-pong playback shows neighbouring frames in turn. Starting fresh on a
/// frame, an update by exactly that frame's time on screen shows the frame
/// beside it in the direction of travel; at either end it turns back, so
/// after the last frame comes the one before it and after the first the one
/// after it. (Every frame of the animation is on screen for some time.)
pub proof fn lemma_ping_pong_update_shows_neighbour(anims: Map<Seq<char>, Animation>, st: AnimatorState, dt: nat)
    requires
        st.current is Some,
        anims.contains_key(st.current->0),
        anims[st.current->0].spec_loop_mode() == LoopMode::PingPong,
        anims[st.current->0].spec_frames().len() >= 2,
        forall|i: int| 0 <= i < anims[st.current->0].spec_frames().len()
            ==> anims[st.current->0].spec_frames()[i].duration@ > 0,
        st.frame_index < anims[st.current->0].spec_frames().len(),
        st.dir == 1 || st.dir == -1,
        !st.paused,
        !st.finished,
        st.elapsed == 0,
        dt == anims[st.current->0].spec_frames()[st.frame_index as int].duration@,
        dt <= MAX_NANOS,
    ensures
        ({
            let len = anims[st.current->0].spec_frames().len();
            let u = updated(anims, st, dt);
            &&& u.current == st.current
            &&& u.elapsed == 0
            &&& !u.finished
            &&& !u.paused
            &&& u.frame_index < len
            &&& (u.frame_index == st.frame_index + 1 || u.frame_index + 1 == st.frame_index)
            &&& (st.frame_index == len - 1 ==> u.frame_index == len - 2 && u.dir == -1)
            &&& (st.frame_index == 0 ==> u.frame_index == 1 && u.dir == 1)
            &&& (0 < st.frame_index < len - 1 ==> u.frame_index == st.frame_index + st.dir && u.dir == st.dir)
        }),
{
    let anim = anims[st.current->0];
    let frames = anim.spec_frames();
    let len = frames.len();
    let ticked = AnimatorState { elapsed: saturating_sum(st.elapsed, dt), ..st };
    assert(ticked == AnimatorState { elapsed: dt, ..st });
    let b = step_budget(len);
    assert(b >= 32);
    let cleared = AnimatorState { elapsed: (ticked.elapsed - dt) as nat, ..ticked };
    let n = advanced(cleared, LoopMode::PingPong, len);
    lemma_ping_pong_steps_one_frame(cleared, len);
    assert(consume(frames, LoopMode::PingPong, ticked, b) == consume(frames, LoopMode::PingPong, n, (b - 1) as nat));
    assert(frames[n.frame_index as int].duration@ > 0);
    assert(consume(frames, LoopMode::PingPong, n, (b - 1) as nat) == n);
}

/// One step of looping playback moves to the next frame, and from the last
/// frame back to the first; it never finishes.
pub proof fn lemma_loop_steps_to_next_frame(st: AnimatorState, len: nat)
    requires
        len >= 1,
        st.frame_index < len,
    ensures
        ({
            let n = advanced(st, LoopMode::Loop, len);
            &&& st.frame_index + 1 < len ==> n.frame_index == st.frame_index + 1
            &&& st.frame_index + 1 == len ==> n.frame_index == 0
            &&& n.finished == st.finished
            &&& n.dir == st.dir
        }),
{
    if len > 1 {
        if st.frame_index + 1 < len {
            vstd::arithmetic::div_mod::lemma_small_mod((st.frame_index + 1) as nat, len);
        } else {
            vstd::arithmetic::div_mod::lemma_mod_self_0(len as int);
        }
    }
}

/// One step of play-once playback moves to the next frame until the last,
/// where it stays and the animation is finished.
pub proof fn lemma_once_steps_to_next_frame(st: AnimatorState, len: nat)
    requires
        len >= 2,
        st.frame_index < len,
    ensures
        ({
            let n = advanced(st, LoopMode::Once, len);
            &&& st.frame_index + 1 < len ==> n.frame_index == st.frame_index + 1 && n.finished == st.finished
            &&& st.frame_index + 1 == len ==> n.frame_index == len - 1 && n.finished
            &&& n.dir == st.dir
        }),
{
}

/// An empty time step leaves the playback state as it was.
pub proof fn lemma_update_zero_is_identity(anims: Map<Seq<char>, Animation>, st: AnimatorState)
    ensures
        updated(anims, st, 0) == st,
{
}

/// Once a play-once animation has finished, further time changes nothing.
pub proof fn lemma_finished_is_final(anims: Map<Seq<char>, Animation>, st: AnimatorState, dt: nat)
    requires
        st.finished,
    ensures
        updated(anims, st, dt) == st,
{
}

/// Stepping a looping or ping-pong animation never marks it finished.
pub proof fn lemma_consume_never_finishes(frames: Seq<Frame>, mode: LoopMode, st: AnimatorState, budget: nat)
    requires
        mode != LoopMode::Once,
        !st.finished,
    ensures
        !consume(frames, mode, st, budget).finished,
    decreases budget,
{
    if budget > 0 && st.frame_index < frames.len() {
        let d = frames[st.frame_index as int].duration@;
        if d == 0 {
            lemma_consume_never_finishes(frames, mode, advanced(st, mode, frames.len()), (budget - 1) as nat);
        } else if st.elapsed >= d {
            lemma_consume_never_finishes(
                frames,
                mode,
                advanced(AnimatorState { elapsed: (st.elapsed - d) as nat, ..st }, mode, frames.len()),
                (budget - 1) as nat,
            );
        }
    }
}

/// A looping or ping-pong animation never finishes, however much time passes.
pub proof fn lemma_repeating_never_finishes(anims: Map<Seq<char>, Animation>, st: AnimatorState, dt: nat)
    requires
        !st.finished,
        st.current matches Some(n) && anims.contains_key(n) && anims[n].spec_loop_mode() != LoopMode::Once,
    ensures
        !updated(anims, st, dt).finished,
{
    if dt != 0 {
        let anim = anims[st.current->0];
        let frames = anim.spec_frames();
        if frames.len() != 0 {
            let ticked = if st.paused { st } else { AnimatorState { elapsed: saturating_sum(st.elapsed, dt), ..st } };
            lemma_consume_never_finishes(frames, anim.spec_loop_mode(), ticked, step_budget(frames.len()));
        }
    }
}

/// Stepping never adds time: what is left on the clock is at most what was
/// there before.
pub proof fn lemma_consume_never_adds_time(frames: Seq<Frame>, mode: LoopMode, st: AnimatorState, budget: nat)
    ensures
        consume(frames, mode, st, budget).elapsed <= st.elapsed,
    decreases budget,
{
    if !st.finished && budget > 0 && st.frame_index < frames.len() {
        let d = frames[st.frame_index as int].duration@;
        if d == 0 {
            lemma_consume_never_adds_time(frames, mode, advanced(st, mode, frames.len()), (budget - 1) as nat);
        } else if st.elapsed >= d {
            lemma_consume_never_adds_time(
                frames,
                mode,
                advanced(AnimatorState { elapsed: (st.elapsed - d) as nat, ..st }, mode, frames.len()),
                (budget - 1) as nat,
            );
        }
    }
}

/// While paused, an update lets no time accumulate on the clock.
pub proof fn lemma_paused_clock_never_grows(anims: Map<Seq<char>, Animation>, st: AnimatorState, dt: nat)
    requires
        st.paused,
    ensures
        updated(anims, st, dt).elapsed <= st.elapsed,
{
    if dt != 0 && st.current is Some && !st.finished && anims.contains_key(st.current->0) {
        let anim = anims[st.current->0];
        let frames = anim.spec_frames();
        if frames.len() != 0 {
            lemma_consume_never_adds_time(frames, anim.spec_loop_mode(), st, step_budget(frames.len()));
        }
    }
}

/// When stepping marks a play-once animation finished, it rests on its last
/// frame.
pub proof fn lemma_consume_finishes_on_last_frame(frames: Seq<Frame>, st: AnimatorState, budget: nat)
    requires
        !st.finished,
    ensures
        consume(frames, LoopMode::Once, st, budget).finished ==> consume(frames, LoopMode::Once, st, budget).frame_index
            == frames.len() - 1,
    decreases budget,
{
    if budget > 0 && st.frame_index < frames.len() {
        let d = frames[st.frame_index as int].duration@;
        let next = if d == 0 { st } else { AnimatorState { elapsed: (st.elapsed - d) as nat, ..st } };
        if d == 0 || st.elapsed >= d {
            let st2 = advanced(next, LoopMode::Once, frames.len());
            if !st2.finished {
                lemma_consume_finishes_on_last_frame(frames, st2, (budget - 1) as nat);
            }
        }
    }
}

/// A play-once animation that finishes during an update rests on its last
/// frame.
pub proof fn lemma_once_finishes_on_last_frame(anims: Map<Seq<char>, Animation>, st: AnimatorState, dt: nat)
    requires
        !st.finished,
        st.current matches Some(n) && anims.contains_key(n) && anims[n].spec_loop_mode() == LoopMode::Once,
    ensures
        updated(anims, st, dt).finished ==> updated(anims, st, dt).frame_index
            == anims[st.current->0].spec_frames().len() - 1,
{
    if dt != 0 {
        let anim = anims[st.current->0];
        let frames = anim.spec_frames();
        if frames.len() != 0 {
            let ticked = if st.paused { st } else { AnimatorState { elapsed: saturating_sum(st.elapsed, dt), ..st } };
            lemma_consume_finishes_on_last_frame(frames, ticked, step_budget(frames.len()));
        }
    }
}

/// `st` with `extra` more nanoseconds on the clock.
pub open spec fn with_extra(st: AnimatorState, extra: nat) -> AnimatorState {
    AnimatorState { elapsed: st.elapsed + extra, ..st }
}

/// Whether [`consume`] runs out of steps before the clock settles: it has
/// used its whole budget while time for another frame is still left.
pub open spec fn exhausts(frames: Seq<Frame>, mode: LoopMode, st: AnimatorState, budget: nat) -> bool
    decreases budget,
{
    if st.finished {
        false
    } else if budget == 0 {
        true
    } else if st.frame_index >= frames.len() {
        false
    } else {
        let d = frames[st.frame_index as int].duration@;
        if d == 0 {
            exhausts(frames, mode, advanced(st, mode, frames.len()), (budget - 1) as nat)
        } else if st.elapsed < d {
            false
        } else {
            exhausts(
                frames,
                mode,
                advanced(AnimatorState { elapsed: (st.elapsed - d) as nat, ..st }, mode, frames.len()),
                (budget - 1) as nat,
            )
        }
    }
}

/// The number of frame steps [`consume`] takes.
pub open spec fn steps_taken(frames: Seq<Frame>, mode: LoopMode, st: AnimatorState, budget: nat) -> nat
    decreases budget,
{
    if st.finished || budget == 0 || st.frame_index >= frames.len() {
        0
    } else {
        let d = frames[st.frame_index as int].duration@;
        if d == 0 {
            1 + steps_taken(frames, mode, advanced(st, mode, frames.len()), (budget - 1) as nat)
        } else if st.elapsed < d {
            0
        } else {
            1 + steps_taken(
                frames,
                mode,
                advanced(AnimatorState { elapsed: (st.elapsed - d) as nat, ..st }, mode, frames.len()),
                (budget - 1) as nat,
            )
        }
    }
}

/// Stepping keeps the selection and the pause flag, and keeps the frame
/// index in range.
proof fn lemma_consume_keeps(frames: Seq<Frame>, mode: LoopMode, st: AnimatorState, budget: nat)
    requires
        st.frame_index < frames.len(),
    ensures
        consume(frames, mode, st, budget).current == st.current,
        consume(frames, mode, st, budget).paused == st.paused,
        consume(frames, mode, st, budget).frame_index < frames.len(),
        !exhausts(frames, mode, st, budget) ==> steps_taken(frames, mode, st, budget) <= budget,
    decreases budget,
{
    if !st.finished && budget > 0 {
        let d = frames[st.frame_index as int].duration@;
        if d == 0 {
            lemma_consume_keeps(frames, mode, advanced(st, mode, frames.len()), (budget - 1) as nat);
        } else if st.elapsed >= d {
            lemma_consume_keeps(
                frames,
                mode,
                advanced(AnimatorState { elapsed: (st.elapsed - d) as nat, ..st }, mode, frames.len()),
                (budget - 1) as nat,
            );
        }
    }
}

/// Stepping that does not run out of steps leaves the clock settled: the
/// animation finished, or the frame on screen has a length and less time
/// than that on the clock.
proof fn lemma_consume_settles(frames: Seq<Frame>, mode: LoopMode, st: AnimatorState, n: nat)
    requires
        st.frame_index < frames.len(),
        !exhausts(frames, mode, st, n),
    ensures
        ({
            let s = consume(frames, mode, st, n);
            s.finished || (frames[s.frame_index as int].duration@ > 0 && s.elapsed
                < frames[s.frame_index as int].duration@)
        }),
    decreases n,
{
    if !st.finished {
        let d = frames[st.frame_index as int].duration@;
        if d == 0 {
            lemma_consume_settles(frames, mode, advanced(st, mode, frames.len()), (n - 1) as nat);
        } else if st.elapsed >= d {
            lemma_consume_settles(
                frames,
                mode,
                advanced(AnimatorState { elapsed: (st.elapsed - d) as nat, ..st }, mode, frames.len()),
                (n - 1) as nat,
            );
        }
    }
}

/// A budget that suffices gives the same result when it grows.
proof fn lemma_consume_more_budget(frames: Seq<Frame>, mode: LoopMode, st: AnimatorState, n: nat, n2: nat)
    requires
        st.frame_index < frames.len(),
        !exhausts(frames, mode, st, n),
        n <= n2,
    ensures
        consume(frames, mode, st, n2) == consume(frames, mode, st, n),
    decreases n,
{
    if !st.finished {
        let d = frames[st.frame_index as int].duration@;
        if d == 0 {
            lemma_consume_more_budget(frames, mode, advanced(st, mode, frames.len()), (n - 1) as nat, (n2 - 1) as nat);
        } else if st.elapsed >= d {
            lemma_consume_more_budget(
                frames,
                mode,
                advanced(AnimatorState { elapsed: (st.elapsed - d) as nat, ..st }, mode, frames.len()),
                (n - 1) as nat,
                (n2 - 1) as nat,
            );
        }
    }
}

/// Less time on the clock never needs more steps.
proof fn lemma_exhausts_monotone(frames: Seq<Frame>, mode: LoopMode, st: AnimatorState, extra: nat, n: nat)
    requires
        st.frame_index < frames.len(),
        !exhausts(frames, mode, with_extra(st, extra), n),
    ensures
        !exhausts(frames, mode, st, n),
    decreases n,
{
    if !st.finished && n > 0 {
        let d = frames[st.frame_index as int].duration@;
        if d == 0 {
            assert(advanced(with_extra(st, extra), mode, frames.len()) == with_extra(advanced(st, mode, frames.len()), extra));
            lemma_exhausts_monotone(frames, mode, advanced(st, mode, frames.len()), extra, (n - 1) as nat);
        } else if st.elapsed >= d {
            let st1 = AnimatorState { elapsed: (st.elapsed - d) as nat, ..st };
            assert(advanced(AnimatorState { elapsed: (with_extra(st, extra).elapsed - d) as nat, ..with_extra(st, extra) }, mode, frames.len())
                == with_extra(advanced(st1, mode, frames.len()), extra));
            lemma_exhausts_monotone(frames, mode, advanced(st1, mode, frames.len()), extra, (n - 1) as nat);
        }
    }
}

/// Time added before stepping is the same as time added after: stepping
/// with `extra` more on the clock goes through the same frames, and then
/// carries on from where stepping without it settled.
proof fn lemma_consume_shift(frames: Seq<Frame>, mode: LoopMode, st: AnimatorState, n: nat, extra: nat, n2: nat)
    requires
        st.frame_index < frames.len(),
        !exhausts(frames, mode, st, n),
        n2 >= steps_taken(frames, mode, st, n),
    ensures
        consume(frames, mode, with_extra(st, extra), n2) == consume(
            frames,
            mode,
            with_extra(consume(frames, mode, st, n), extra),
            (n2 - steps_taken(frames, mode, st, n)) as nat,
        ),
        exhausts(frames, mode, with_extra(st, extra), n2) == exhausts(
            frames,
            mode,
            with_extra(consume(frames, mode, st, n), extra),
            (n2 - steps_taken(frames, mode, st, n)) as nat,
        ),
    decreases n,
{
    if !st.finished {
        let d = frames[st.frame_index as int].duration@;
        if d == 0 {
            assert(advanced(with_extra(st, extra), mode, frames.len()) == with_extra(advanced(st, mode, frames.len()), extra));
            lemma_consume_shift(frames, mode, advanced(st, mode, frames.len()), (n - 1) as nat, extra, (n2 - 1) as nat);
        } else if st.elapsed >= d {
            let st1 = AnimatorState { elapsed: (st.elapsed - d) as nat, ..st };
            assert(advanced(AnimatorState { elapsed: (with_extra(st, extra).elapsed - d) as nat, ..with_extra(st, extra) }, mode, frames.len())
                == with_extra(advanced(st1, mode, frames.len()), extra));
            lemma_consume_shift(frames, mode, advanced(st1, mode, frames.len()), (n - 1) as nat, extra, (n2 - 1) as nat);
        }
    }
}

/// Playback is frame-rate independent: letting `a` and then `b` pass gives
/// the same frame, direction and finished flag as letting `a + b` pass at
/// once, and the very same state unless a play-once animation finished on
/// the way (then only the time left on the clock may differ). While paused,
/// both give the very same state. This holds while the clock does not
/// saturate and the single update stays within its step limit.
pub proof fn lemma_update_is_frame_rate_independent(
    anims: Map<Seq<char>, Animation>,
    st: AnimatorState,
    a: nat,
    b: nat,
)
    requires
        st.current matches Some(n) && anims.contains_key(n) && (st.frame_index < anims[n].spec_frames().len()
            || anims[n].spec_frames().len() == 0),
        st.elapsed + a + b <= MAX_NANOS,
        !exhausts(
            anims[st.current->0].spec_frames(),
            anims[st.current->0].spec_loop_mode(),
            with_extra(st, a + b),
            step_budget(anims[st.current->0].spec_frames().len()),
        ),
    ensures
        ({
            let split = updated(anims, updated(anims, st, a), b);
            let whole = updated(anims, st, a + b);
            &&& split.current == whole.current
            &&& split.frame_index == whole.frame_index
            &&& split.dir == whole.dir
            &&& split.finished == whole.finished
            &&& split.paused == whole.paused
            &&& frame_on_screen(anims, split) == frame_on_screen(anims, whole)
            &&& !split.finished ==> split == whole
        }),
{
    if anims[st.current->0].spec_frames().len() == 0 {
    } else if a > 0 && b > 0 && !st.finished && st.paused {
        let anim = anims[st.current->0];
        let frames = anim.spec_frames();
        let mode = anim.spec_loop_mode();
        let bud = step_budget(frames.len());
        lemma_exhausts_monotone(frames, mode, st, a + b, bud);
        lemma_consume_keeps(frames, mode, st, bud);
        lemma_consume_settles(frames, mode, st, bud);
        let s1 = consume(frames, mode, st, bud);
        assert(updated(anims, st, a) == s1);
        assert(updated(anims, st, a + b) == s1);
        if !s1.finished {
            assert(consume(frames, mode, s1, bud) == s1);
        }
    } else if a > 0 && b > 0 && !st.finished {
        let anim = anims[st.current->0];
        let frames = anim.spec_frames();
        let mode = anim.spec_loop_mode();
        let bud = step_budget(frames.len());
        let t = with_extra(st, a);
        assert(with_extra(t, b) == with_extra(st, a + b));
        assert(saturating_sum(st.elapsed, a) == st.elapsed + a);
        assert(saturating_sum(st.elapsed, a + b) == st.elapsed + a + b);
        lemma_exhausts_monotone(frames, mode, t, b, bud);
        lemma_consume_keeps(frames, mode, t, bud);
        lemma_consume_never_adds_time(frames, mode, t, bud);
        let s1 = consume(frames, mode, t, bud);
        let k = steps_taken(frames, mode, t, bud);
        assert(updated(anims, st, a) == s1);
        lemma_consume_shift(frames, mode, t, bud, b, bud);
        if !s1.finished {
            assert(saturating_sum(s1.elapsed, b) == s1.elapsed + b);
            lemma_consume_more_budget(frames, mode, with_extra(s1, b), (bud - k) as nat, bud);
        }
    }
}

/// Stepping cannot run out of steps while every frame lasts at least `dmin`
/// and less than `n` such frames' worth of time is on the clock.
pub proof fn lemma_short_time_stays_within_limit(
    frames: Seq<Frame>,
    mode: LoopMode,
    st: AnimatorState,
    n: nat,
    dmin: nat,
)
    requires
        dmin > 0,
        forall|i: int| 0 <= i < frames.len() ==> (#[trigger] frames[i]).duration@ >= dmin,
        st.elapsed < n * dmin,
    ensures
        !exhausts(frames, mode, st, n),
    decreases n,
{
    if n == 0 {
        assert(n * dmin == 0) by (nonlinear_arith)
            requires
                n == 0,
        ;
    }
    if !st.finished && n > 0 && st.frame_index < frames.len() {
        let d = frames[st.frame_index as int].duration@;
        assert(d >= dmin);
        if st.elapsed >= d {
            let st1 = AnimatorState { elapsed: (st.elapsed - d) as nat, ..st };
            assert(st1.elapsed < (n - 1) * dmin) by (nonlinear_arith)
                requires
                    st1.elapsed == st.elapsed - d,
                    d >= dmin,
                    st.elapsed < n * dmin,
                    n >= 1,
            ;
            lemma_short_time_stays_within_limit(frames, mode, advanced(st1, mode, frames.len()), (n - 1) as nat, dmin);
        }
    }
}

/// Frame-rate independence for ordinary updates: when every frame of the
/// playing animation lasts at least `dmin` and the clock together with both
/// steps stays under 32 such frames, letting `a` and then `b` pass ends on
/// the same frame, direction and finished flag as letting `a + b` pass at
/// once, and in the same state unless a play-once animation finished.
pub proof fn lemma_short_updates_are_frame_rate_independent(
    anims: Map<Seq<char>, Animation>,
    st: AnimatorState,
    a: nat,
    b: nat,
    dmin: nat,
)
    requires
        st.current matches Some(n) && anims.contains_key(n) && (st.frame_index < anims[n].spec_frames().len()
            || anims[n].spec_frames().len() == 0),
        dmin > 0,
        forall|i: int|
            0 <= i < anims[st.current->0].spec_frames().len() ==> (
            #[trigger] anims[st.current->0].spec_frames()[i]).duration@ >= dmin,
        st.elapsed + a + b < 32 * dmin,
        st.elapsed + a + b <= MAX_NANOS,
    ensures
        ({
            let split = updated(anims, updated(anims, st, a), b);
            let whole = updated(anims, st, a + b);
            &&& split.current == whole.current
            &&& split.frame_index == whole.frame_index
            &&& split.dir == whole.dir
            &&& split.finished == whole.finished
            &&& frame_on_screen(anims, split) == frame_on_screen(anims, whole)
            &&& !split.finished ==> split == whole
        }),
{
    let anim = anims[st.current->0];
    let frames = anim.spec_frames();
    let bud = step_budget(frames.len());
    assert(bud >= 32);
    assert(32 * dmin <= bud * dmin) by (nonlinear_arith)
        requires
            bud >= 32,
            dmin > 0,
    ;
    lemma_short_time_stays_within_limit(frames, anim.spec_loop_mode(), with_extra(st, a + b), bud, dmin);
    lemma_update_is_frame_rate_independent(anims, st, a, b);
}

impl SpriteAnimator {
    /// A well-formed animator meets the frame-index premise of the
    /// frame-rate laws: its frame index is in range, or its animation has no
    /// frames.
    pub proof fn lemma_frame_index_in_range(&self)
        requires
            self.wf(),
        ensures
            self.state().current matches Some(n) ==> self.spec_animations().contains_key(n) && (
            self.state().frame_index < self.spec_animations()[n].spec_frames().len()
                || self.spec_animations()[n].spec_frames().len() == 0),
    {
    }
}

/// One step forward in an animation of `len` frames.
fn advance(frame_index: &mut usize, dir: &mut i32, finished: &mut bool, loop_mode: LoopMode, len: usize)
    requires
        *old(frame_index) < len,
        *old(dir) == 1 || *old(dir) == -1,
        loop_mode == LoopMode::PingPong ==> len <= i32::MAX,
    ensures
        *final(dir) == 1 || *final(dir) == -1,
        *final(frame_index) < len,
        ({
            let st = AnimatorState {
                current: None,
                frame_index: *old(frame_index) as nat,
                elapsed: 0,
                paused: false,
                dir: *old(dir) as int,
                finished: *old(finished),
            };
            let st2 = advanced(st, loop_mode, len as nat);
            &&& *final(frame_index) == st2.frame_index
            &&& *final(dir) == st2.dir
            &&& *final(finished) == st2.finished
        }),
{
    if len <= 1 {
        *frame_index = 0;
        return;
    }
    match loop_mode {
        LoopMode::Loop => {
            *frame_index = (*frame_index + 1) % len;
        },
        LoopMode::Once => {
            if *frame_index + 1 >= len {
                *frame_index = len - 1;
                *finished = true;
            } else {
                *frame_index = *frame_index + 1;
            }
        },
        LoopMode::PingPong => {
            let next = *frame_index as i32 + *dir;
            if next >= len as i32 {
                *dir = -1;
                *frame_index = len - 2;
            } else if next < 0 {
                *dir = 1;
                *frame_index = 1;
            } else {
                *frame_index = next as usize;
            }
        },
    }
}

} // verus!
