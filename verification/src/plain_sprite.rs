use vstd::prelude::*;

use crate::animation::{Animation, Animations};
use crate::draw::{Flip, ImageDraw, SrcRect};
use crate::handle::Handle;
use crate::sprite::{
    current_steppable, frame_on_screen, lemma_update_keeps_unpaused, started_state, stopped_state, updated,
    AnimatorState,
};
use crate::sprite::SpriteAnimator as PausableAnimator;
use crate::animation::Frame;
use crate::time::Duration;

verus! {

/// Runtime state for playing one animation out of an [`Animations`] set,
/// with a clock that always runs.
///
/// Playback is frame-rate independent: a large time step moves over several
/// frames at once. Asking to play the animation already selected, without
/// restart, changes nothing, even when a play-once animation has finished;
/// only a restart or another animation starts over. Time is kept exactly,
/// in nanoseconds; the playback states are those of the pausable animator
/// in [`crate::sprite`], never paused.
#[derive(Clone, Debug)]
pub struct SpriteAnimator {
    inner: PausableAnimator,
}

impl SpriteAnimator {
    /// The animations this animator can play.
    pub closed spec fn spec_animations(&self) -> Map<Seq<char>, Animation> {
        self.inner.spec_animations()
    }

    /// The playback state; it is never paused.
    pub closed spec fn state(&self) -> AnimatorState {
        self.inner.state()
    }

    /// Internal consistency: that of the pausable animator, never paused.
    pub closed spec fn wf(&self) -> bool {
        self.inner.wf() && !self.inner.state().paused
    }

    /// An animator over `animations`, with nothing playing.
    pub fn new(animations: Animations) -> (a: SpriteAnimator)
        requires
            animations.wf(),
        ensures
            a.wf(),
            a.spec_animations() == animations@,
            a.state() == stopped_state(),
    {
        SpriteAnimator { inner: PausableAnimator::new(animations) }
    }

    /// The name of the animation being played, if any.
    pub fn current(&self) -> (r: Option<&str>)
        ensures
            r matches Some(s) ==> self.state().current == Some(s@),
            r is None ==> self.state().current is None,
    {
        self.inner.current()
    }

    /// Whether a play-once animation has reached its last frame.
    pub fn is_finished(&self) -> (b: bool)
        ensures
            b == self.state().finished,
    {
        self.inner.is_finished()
    }

    /// Start playing `name`.
    ///
    /// When `name` is already selected and `restart` is `false`, nothing
    /// changes. Otherwise `name` starts over from its first frame. Returns
    /// `false`, changing nothing, when there is no animation called `name`.
    pub fn play(&mut self, name: &str, restart: bool) -> (ok: bool)
        requires
            old(self).wf(),
        ensures
            final(self).wf(),
            final(self).spec_animations() == old(self).spec_animations(),
            ok == old(self).spec_animations().contains_key(name@),
            !ok ==> final(self).state() == old(self).state(),
            ok && !restart && old(self).state().current == Some(name@) ==> final(self).state() == old(
                self,
            ).state(),
            ok && !(!restart && old(self).state().current == Some(name@)) ==> final(self).state()
                == started_state(name@),
    {
        let key = name.to_owned();
        let same = match self.inner.current() {
            Some(c) => c.to_owned() == key,
            None => false,
        };
        if !restart && same {
            proof {
                self.inner.lemma_current_is_known();
            }
            return true;
        }
        self.inner.play(name, true)
    }

    /// Deselect the animation and clear the clock.
    pub fn stop(&mut self)
        requires
            old(self).wf(),
        ensures
            final(self).wf(),
            final(self).state() == stopped_state(),
            final(self).spec_animations() == old(self).spec_animations(),
    {
        self.inner.stop();
    }

    /// Whether [`Self::update`] can step the selected animation: true unless
    /// it is a ping-pong animation of more than `i32::MAX` frames.
    pub fn can_step(&self) -> (b: bool)
        requires
            self.wf(),
        ensures
            b == current_steppable(self.spec_animations(), self.state()),
    {
        self.inner.can_step()
    }

    /// Let `dt` pass and step through as many frames as the accumulated
    /// time covers.
    ///
    /// Nothing happens for an empty step, when nothing is selected, when a
    /// play-once animation has finished, or when the animation has no frames.
    pub fn update(&mut self, dt: Duration)
        requires
            old(self).wf(),
            current_steppable(old(self).spec_animations(), old(self).state()),
        ensures
            final(self).wf(),
            final(self).spec_animations() == old(self).spec_animations(),
            final(self).state() == updated(old(self).spec_animations(), old(self).state(), dt@),
    {
        proof {
            lemma_update_keeps_unpaused(self.inner.spec_animations(), self.inner.state(), dt@);
        }
        self.inner.update(dt);
    }

    /// The frame on screen, if an animation is selected and has frames.
    pub fn frame(&self) -> (f: Option<Frame>)
        requires
            self.wf(),
        ensures
            f == frame_on_screen(self.spec_animations(), self.state()),
    {
        self.inner.frame()
    }
}

/// An image handle, an animator without pause and mirroring flags.
#[derive(Clone, Debug)]
pub struct AnimatedSprite {
    pub image: Handle,
    pub animator: SpriteAnimator,
    pub flip_x: bool,
    pub flip_y: bool,
}

impl AnimatedSprite {
    /// A sprite of `image` that can play `animations`; nothing plays yet.
    pub fn new(image: Handle, animations: Animations) -> (s: AnimatedSprite)
        requires
            animations.wf(),
        ensures
            s.image == image,
            s.animator.wf(),
            s.animator.spec_animations() == animations@,
            s.animator.state() == stopped_state(),
            !s.flip_x,
            !s.flip_y,
    {
        AnimatedSprite { image, animator: SpriteAnimator::new(animations), flip_x: false, flip_y: false }
    }

    /// Let `dt` pass for the animator.
    pub fn update(&mut self, dt: Duration)
        requires
            old(self).animator.wf(),
            current_steppable(old(self).animator.spec_animations(), old(self).animator.state()),
        ensures
            final(self).animator.wf(),
            final(self).animator.spec_animations() == old(self).animator.spec_animations(),
            final(self).animator.state() == updated(
                old(self).animator.spec_animations(),
                old(self).animator.state(),
                dt@,
            ),
            final(self).image == old(self).image,
            final(self).flip_x == old(self).flip_x,
            final(self).flip_y == old(self).flip_y,
    {
        self.animator.update(dt);
    }

    /// How the sprite is drawn: the frame on screen as a part of the image,
    /// mirrored as the flags say; the whole image when nothing plays.
    pub fn draw_call(&self) -> (d: ImageDraw)
        requires
            self.animator.wf(),
        ensures
            d == (match frame_on_screen(self.animator.spec_animations(), self.animator.state()) {
                Some(f) => ImageDraw::Mirrored {
                    src: SrcRect { x: f.x, y: f.y, w: f.width, h: f.height },
                    flip: Flip { x: self.flip_x, y: self.flip_y },
                },
                None => ImageDraw::Whole,
            }),
    {
        match self.animator.frame() {
            Some(f) => ImageDraw::Mirrored {
                src: SrcRect { x: f.x, y: f.y, w: f.width, h: f.height },
                flip: Flip { x: self.flip_x, y: self.flip_y },
            },
            None => ImageDraw::Whole,
        }
    }
}

} // verus!
