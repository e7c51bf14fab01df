use vstd::prelude::*;

use crate::names::NameMap;
use crate::time::Duration;

verus! {

/// How an animation continues after its last frame.
#[derive(Clone, Copy, PartialEq, Eq, Structural, Debug)]
pub enum LoopMode {
    /// Play once and stop on the last frame.
    Once,
    /// Start over from the first frame.
    Loop,
    /// Run backwards to the first frame, then forwards again, and so on.
    PingPong,
}

impl Default for LoopMode {
    fn default() -> (m: LoopMode)
        ensures
            m == LoopMode::Loop,
    {
        LoopMode::Loop
    }
}

/// One frame of a sprite-sheet animation: a pixel rectangle of the sheet and
/// how long it stays on screen.
#[derive(Clone, Copy, PartialEq, Eq, Structural, Debug)]
pub struct Frame {
    pub x: u32,
    pub y: u32,
    pub width: u32,
    pub height: u32,
    pub duration: Duration,
}

impl Frame {
    pub fn new(x: u32, y: u32, width: u32, height: u32, duration: Duration) -> (f: Frame)
        ensures
            f == (Frame { x, y, width, height, duration }),
    {
        Frame { x, y, width, height, duration }
    }

    /// The frame with its left edge at `x`.
    pub fn with_x(self, x: u32) -> (f: Frame)
        ensures
            f == (Frame { x, ..self }),
    {
        Frame { x, ..self }
    }

    /// The frame with its top edge at `y`.
    pub fn with_y(self, y: u32) -> (f: Frame)
        ensures
            f == (Frame { y, ..self }),
    {
        Frame { y, ..self }
    }

    /// The frame `width` pixels wide.
    pub fn with_width(self, width: u32) -> (f: Frame)
        ensures
            f == (Frame { width, ..self }),
    {
        Frame { width, ..self }
    }

    /// The frame `height` pixels tall.
    pub fn with_height(self, height: u32) -> (f: Frame)
        ensures
            f == (Frame { height, ..self }),
    {
        Frame { height, ..self }
    }

    /// The frame shown for `duration`.
    pub fn with_duration(self, duration: Duration) -> (f: Frame)
        ensures
            f == (Frame { duration, ..self }),
    {
        Frame { duration, ..self }
    }
}

impl Default for Frame {
    /// An empty rectangle at the origin, shown for no time.
    fn default() -> (f: Frame)
        ensures
            f.x == 0 && f.y == 0 && f.width == 0 && f.height == 0,
            f.duration@ == 0,
    {
        Frame { x: 0, y: 0, width: 0, height: 0, duration: Duration::zero() }
    }
}

/// An ordered list of frames with a loop mode.
#[derive(Clone, Debug)]
pub struct Animation {
    frames: Vec<Frame>,
    loop_mode: LoopMode,
}

impl Animation {
    /// The frames, in playing order.
    pub closed spec fn spec_frames(&self) -> Seq<Frame> {
        self.frames@
    }

    /// The loop mode.
    pub closed spec fn spec_loop_mode(&self) -> LoopMode {
        self.loop_mode
    }

    pub fn new(frames: Vec<Frame>, loop_mode: LoopMode) -> (a: Animation)
        ensures
            a.spec_frames() == frames@,
            a.spec_loop_mode() == loop_mode,
    {
        Animation { frames, loop_mode }
    }

    /// The animation with `frames` as its frames.
    pub fn with_frames(self, frames: Vec<Frame>) -> (a: Animation)
        ensures
            a.spec_frames() == frames@,
            a.spec_loop_mode() == self.spec_loop_mode(),
    {
        Animation { frames, loop_mode: self.loop_mode }
    }

    /// The animation played in `loop_mode`.
    pub fn with_loop_mode(self, loop_mode: LoopMode) -> (a: Animation)
        ensures
            a.spec_frames() == self.spec_frames(),
            a.spec_loop_mode() == loop_mode,
    {
        Animation { frames: self.frames, loop_mode }
    }

    #[inline]
    pub fn frames(&self) -> (s: &[Frame])
        ensures
            s@ == self.spec_frames(),
    {
        self.frames.as_slice()
    }

    #[inline]
    pub fn loop_mode(&self) -> (m: LoopMode)
        ensures
            m == self.spec_loop_mode(),
    {
        self.loop_mode
    }

    #[inline]
    pub fn is_empty(&self) -> (b: bool)
        ensures
            b == (self.spec_frames().len() == 0),
    {
        self.frames.is_empty()
    }

    #[inline]
    pub fn len(&self) -> (n: usize)
        ensures
            n == self.spec_frames().len(),
    {
        self.frames.len()
    }

    /// The frame at `index`, if there is one.
    #[inline]
    pub fn frame(&self, index: usize) -> (f: Option<Frame>)
        ensures
            f == (if index < self.spec_frames().len() {
                Some(self.spec_frames()[index as int])
            } else {
                None
            }),
    {
        if index < self.frames.len() {
            Some(self.frames[index])
        } else {
            None
        }
    }

    /// The animation with `frame` appended.
    pub fn add_frame(self, frame: Frame) -> (a: Animation)
        ensures
            a.spec_frames() == self.spec_frames().push(frame),
            a.spec_loop_mode() == self.spec_loop_mode(),
    {
        let mut s = self;
        s.frames.push(frame);
        s
    }

    /// The animation with a frame built from the given parts appended.
    pub fn add_frame_d(self, x: u32, y: u32, width: u32, height: u32, duration: Duration) -> (a:
        Animation)
        ensures
            a.spec_frames() == self.spec_frames().push(Frame { x, y, width, height, duration }),
            a.spec_loop_mode() == self.spec_loop_mode(),
    {
        let mut s = self;
        s.frames.push(Frame::new(x, y, width, height, duration));
        s
    }
}

impl Default for Animation {
    fn default() -> (a: Animation)
        ensures
            a.spec_frames() == Seq::<Frame>::empty(),
            a.spec_loop_mode() == LoopMode::Loop,
    {
        Animation { frames: Vec::new(), loop_mode: LoopMode::Loop }
    }
}

/// A named set of animations. Each name occurs at most once.
#[derive(Clone, Debug)]
pub struct Animations {
    entries: NameMap<Animation>,
}

impl View for Animations {
    type V = Map<Seq<char>, Animation>;

    closed spec fn view(&self) -> Map<Seq<char>, Animation> {
        self.entries@
    }
}

impl Animations {
    /// Whether the internal list repeats no name.
    pub closed spec fn wf(&self) -> bool {
        self.entries.wf()
    }

    /// An empty set.
    pub fn new() -> (a: Animations)
        ensures
            a.wf(),
            a@ == Map::<Seq<char>, Animation>::empty(),
    {
        Animations { entries: NameMap::new() }
    }

    /// The set with `animation` stored under `name`, replacing any animation
    /// that had that name.
    pub fn add_animation(self, name: &str, animation: Animation) -> (a: Animations)
        requires
            self.wf(),
        ensures
            a.wf(),
            a@ == self@.insert(name@, animation),
    {
        let mut s = self;
        s.entries.insert(name.to_owned(), animation);
        s
    }

    /// The animation stored under `name`, if any.
    #[inline]
    pub fn get(&self, name: &str) -> (r: Option<&Animation>)
        requires
            self.wf(),
        ensures
            r matches Some(a) ==> self@.contains_key(name@) && *a == self@[name@],
            r is None ==> !self@.contains_key(name@),
    {
        self.entries.get(&name.to_owned())
    }

    /// The animation stored under `name`, if any, for changing in place.
    #[inline]
    pub fn get_mut(&mut self, name: &str) -> (r: Option<&mut Animation>)
        requires
            old(self).wf(),
        ensures
            match r {
                Some(a) => {
                    &&& old(self)@.contains_key(name@)
                    &&& *a == old(self)@[name@]
                    &&& final(self).wf()
                    &&& final(self)@ == old(self)@.insert(name@, *final(a))
                },
                None => !old(self)@.contains_key(name@) && *final(self) == *old(self),
            },
    {
        self.entries.get_mut(&name.to_owned())
    }

    /// Whether an animation is stored under `name`.
    #[inline]
    pub fn contains(&self, name: &str) -> (b: bool)
        requires
            self.wf(),
        ensures
            b == self@.contains_key(name@),
    {
        self.entries.contains(&name.to_owned())
    }

    /// Whether the set holds no animation.
    #[inline]
    pub fn is_empty(&self) -> (b: bool)
        requires
            self.wf(),
        ensures
            b == (self@.dom().len() == 0),
    {
        self.entries.len() == 0
    }

    /// Number of animations in the set.
    #[inline]
    pub fn len(&self) -> (n: usize)
        requires
            self.wf(),
        ensures
            n == self@.dom().len(),
    {
        self.entries.len()
    }

    /// The entries of the set: every stored name with its animation, each
    /// once.
    #[inline]
    pub fn iter(&self) -> (v: Vec<(&str, &Animation)>)
        requires
            self.wf(),
        ensures
            v@.len() == self@.dom().len(),
            forall|i: int| 0 <= i < v@.len() ==> self@.contains_key(#[trigger] v@[i].0@) && self@[v@[i].0@] == *v@[i].1,
            forall|k: Seq<char>| self@.contains_key(k) ==> exists|i: int| 0 <= i < v@.len() && #[trigger] v@[i].0@ == k,
    {
        self.entries.iter()
    }
}

impl Default for Animations {
    fn default() -> (a: Animations)
        ensures
            a.wf(),
            a@ == Map::<Seq<char>, Animation>::empty(),
    {
        Animations::new()
    }
}

} // verus!
