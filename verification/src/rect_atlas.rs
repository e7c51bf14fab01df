use vstd::prelude::*;

use crate::fonts::{font_parses, parse_font};
use crate::geometry::{rects_disjoint, Size};
use crate::names::NameMap;

verus! {

/// A free rectangle of the atlas, in pixels.
#[derive(Clone, Copy, PartialEq, Eq, Structural, Debug)]
pub struct AtlasRect {
    pub x: u32,
    pub y: u32,
    pub width: u32,
    pub height: u32,
}

/// Whether an image of `w` x `h` fits in `r`.
pub open spec fn fits(r: AtlasRect, w: int, h: int) -> bool {
    r.width >= w && r.height >= h
}

/// The free pieces left of `r` after an image of `w` x `h` is put at its
/// top-left corner: the strip to the right of the image (as tall as the
/// image), the strip below it (as wide as `r`), and the corner piece below
/// and to the right.
pub open spec fn split_pieces(r: AtlasRect, w: int, h: int) -> Seq<AtlasRect> {
    let right = if r.width > w {
        seq![AtlasRect { x: (r.x + w) as u32, y: r.y, width: (r.width - w) as u32, height: h as u32 }]
    } else {
        Seq::empty()
    };
    let bottom = if r.height > h {
        seq![AtlasRect { x: r.x, y: (r.y + h) as u32, width: r.width, height: (r.height - h) as u32 }]
    } else {
        Seq::empty()
    };
    let corner = if r.width > w && r.height > h {
        seq![AtlasRect { x: (r.x + w) as u32, y: (r.y + h) as u32, width: (r.width - w) as u32, height: (r.height - h) as u32 }]
    } else {
        Seq::empty()
    };
    right + bottom + corner
}

impl AtlasRect {
    pub fn new(x: u32, y: u32, width: u32, height: u32) -> (r: AtlasRect)
        ensures
            r == (AtlasRect { x, y, width, height }),
    {
        AtlasRect { x, y, width, height }
    }

    /// Whether an image of `width` x `height` fits.
    pub fn can_fit(&self, width: u32, height: u32) -> (b: bool)
        ensures
            b == fits(*self, width as int, height as int),
    {
        self.width >= width && self.height >= height
    }

    /// The free pieces left after an image of `width` x `height` is put at
    /// the top-left corner; see [`split_pieces`].
    pub fn split(&self, width: u32, height: u32) -> (v: Vec<AtlasRect>)
        requires
            self.width > width ==> self.x + width <= u32::MAX,
            self.height > height ==> self.y + height <= u32::MAX,
        ensures
            v@ == split_pieces(*self, width as int, height as int),
    {
        let mut result: Vec<AtlasRect> = Vec::new();
        if self.width > width {
            result.push(AtlasRect::new(self.x + width, self.y, self.width - width, height));
        }
        if self.height > height {
            result.push(AtlasRect::new(self.x, self.y + height, self.width, self.height - height));
        }
        if self.width > width && self.height > height {
            result.push(AtlasRect::new(self.x + width, self.y + height, self.width - width, self.height - height));
        }
        assert(result@ =~= split_pieces(*self, width as int, height as int));
        result
    }
}

/// Whether `r` lies inside an atlas of `size`.
pub open spec fn rect_inside(r: AtlasRect, size: Size) -> bool {
    r.x + r.width <= size.width && r.y + r.height <= size.height
}

/// Whether an atlas of `w` x `h` can double: both sides still fit in 32
/// bits and its RGBA pixel data (four bytes per pixel) can be sized in 32
/// bits.
pub open spec fn can_expand(w: nat, h: nat) -> bool {
    2 * w <= u32::MAX && 2 * h <= u32::MAX && (2 * w) * (2 * h) * 4 <= u32::MAX
}

/// The free rectangles after an atlas of `w` x `h` doubles: the three new
/// quarters to the right, below and in the corner.
pub open spec fn expanded_free(free: Seq<AtlasRect>, w: u32, h: u32) -> Seq<AtlasRect> {
    free + seq![
        AtlasRect { x: w, y: 0, width: w, height: h },
        AtlasRect { x: 0, y: h, width: w, height: h },
        AtlasRect { x: w, y: h, width: w, height: h },
    ]
}

/// Area of a rectangle.
pub open spec fn area(r: AtlasRect) -> int {
    r.width * r.height
}

/// Among the first `n` free rectangles, the one with the smallest area that
/// fits `w` x `h` (the earliest on ties).
pub open spec fn best_fit(free: Seq<AtlasRect>, w: int, h: int, n: int) -> Option<int>
    decreases n,
{
    if n <= 0 {
        None
    } else {
        let prev = best_fit(free, w, h, n - 1);
        if fits(free[n - 1], w, h) && (prev is None || area(free[n - 1]) < area(free[prev->0])) {
            Some(n - 1)
        } else {
            prev
        }
    }
}

/// Whether an image of `w` x `h` can be placed: now, or after doubling the
/// atlas (from `sw` x `sh`) as often as needed, each doubling allowed.
pub open spec fn placeable(sw: u32, sh: u32, free: Seq<AtlasRect>, w: u32, h: u32) -> bool
    decreases 0x2_0000_0000 - sw - sh,
{
    if best_fit(free, w as int, h as int, free.len() as int) is Some {
        true
    } else if sw + sh == 0 || !can_expand(sw as nat, sh as nat) {
        false
    } else {
        placeable((2 * sw) as u32, (2 * sh) as u32, expanded_free(free, sw, sh), w, h)
    }
}

/// Where an image of `w` x `h` goes, and what the atlas looks like after:
/// the placed rectangle, the number of doublings, the new size and the new
/// free rectangles.
pub open spec fn place_outcome(sw: u32, sh: u32, free: Seq<AtlasRect>, w: u32, h: u32) -> (AtlasRect, nat, u32, u32, Seq<AtlasRect>)
    decreases 0x2_0000_0000 - sw - sh,
{
    match best_fit(free, w as int, h as int, free.len() as int) {
        Some(i) => {
            let r = free[i];
            (
                AtlasRect { x: r.x, y: r.y, width: w, height: h },
                0,
                sw,
                sh,
                free.remove(i) + split_pieces(r, w as int, h as int),
            )
        },
        None => if sw + sh == 0 || !can_expand(sw as nat, sh as nat) {
            (AtlasRect { x: 0, y: 0, width: w, height: h }, 0, sw, sh, free)
        } else {
            let o = place_outcome((2 * sw) as u32, (2 * sh) as u32, expanded_free(free, sw, sh), w, h);
            (o.0, o.1 + 1, o.2, o.3, o.4)
        },
    }
}

/// Free-rectangle packing of images into a texture atlas that doubles in
/// size when nothing fits.
///
/// The smallest free rectangle that fits an image receives it at its
/// top-left corner; what is left of the rectangle is split into the pieces
/// of [`split_pieces`]. Free rectangles may overlap each other, so this
/// packer does not keep placed images apart.
///
/// The atlas also keeps the fonts whose glyphs it holds, by label.
#[derive(Clone, Debug)]
pub struct TextureAtlas {
    size: Size,
    free_rectangles: Vec<AtlasRect>,
    fonts: NameMap<fontdue::Font>,
}

impl TextureAtlas {
    /// The atlas size in pixels.
    pub closed spec fn spec_size(&self) -> Size {
        self.size
    }

    /// The free rectangles, in the order they are searched.
    pub closed spec fn spec_free(&self) -> Seq<AtlasRect> {
        self.free_rectangles@
    }

    /// The loaded fonts, by label.
    pub closed spec fn spec_fonts(&self) -> Map<Seq<char>, fontdue::Font> {
        self.fonts@
    }

    /// The atlas's RGBA pixel data can be sized in 32 bits, every free
    /// rectangle lies inside the atlas, and no font label occurs twice.
    pub closed spec fn wf(&self) -> bool {
        &&& self.fonts.wf()
        &&& self.size.width * self.size.height * 4 <= u32::MAX
        &&& forall|i: int| 0 <= i < self.free_rectangles@.len() ==> rect_inside(#[trigger] self.free_rectangles@[i], self.size)
    }

    /// A square atlas of side `initial_size`, all free.
    pub fn new(initial_size: u32) -> (a: TextureAtlas)
        requires
            initial_size * initial_size * 4 <= u32::MAX,
        ensures
            a.wf(),
            a.spec_size() == (Size { width: initial_size, height: initial_size }),
            a.spec_free() == seq![AtlasRect { x: 0, y: 0, width: initial_size, height: initial_size }],
            a.spec_fonts() == Map::<Seq<char>, fontdue::Font>::empty(),
    {
        let mut free_rectangles: Vec<AtlasRect> = Vec::new();
        free_rectangles.push(AtlasRect::new(0, 0, initial_size, initial_size));
        TextureAtlas { size: Size::new(initial_size, initial_size), free_rectangles, fonts: NameMap::new() }
    }

    /// Parse `bytes` as a font and keep it under `label`, replacing a font
    /// that had that label. Returns whether the bytes parsed; when they do
    /// not, nothing changes.
    pub fn load_font(&mut self, label: &str, bytes: &[u8]) -> (loaded: bool)
        requires
            old(self).wf(),
        ensures
            final(self).wf(),
            loaded == font_parses(bytes@),
            loaded ==> final(self).spec_fonts().contains_key(label@) && final(self).spec_fonts().remove(label@)
                == old(self).spec_fonts().remove(label@),
            !loaded ==> final(self).spec_fonts() == old(self).spec_fonts(),
            final(self).spec_size() == old(self).spec_size(),
            final(self).spec_free() == old(self).spec_free(),
    {
        match parse_font(bytes) {
            Some(font) => {
                self.add_font(label, font);
                assert(self.fonts@.remove(label@) =~= old(self).fonts@.remove(label@));
                true
            },
            None => false,
        }
    }

    /// Keep `font` under `label`, replacing a font that had that label.
    pub fn add_font(&mut self, label: &str, font: fontdue::Font)
        requires
            old(self).wf(),
        ensures
            final(self).wf(),
            final(self).spec_fonts() == old(self).spec_fonts().insert(label@, font),
            final(self).spec_size() == old(self).spec_size(),
            final(self).spec_free() == old(self).spec_free(),
    {
        self.fonts.insert(label.to_owned(), font);
    }

    /// The font loaded under `label`, if any.
    pub fn font(&self, label: &str) -> (r: Option<&fontdue::Font>)
        requires
            self.wf(),
        ensures
            r matches Some(f) ==> self.spec_fonts().contains_key(label@) && *f == self.spec_fonts()[label@],
            r is None ==> !self.spec_fonts().contains_key(label@),
    {
        self.fonts.get(&label.to_owned())
    }

    /// The atlas size in pixels.
    pub fn size(&self) -> (s: Size)
        ensures
            s == self.spec_size(),
    {
        self.size
    }

    /// The free rectangles, in the order they are searched.
    pub fn free_rectangles(&self) -> (s: &[AtlasRect])
        ensures
            s@ == self.spec_free(),
    {
        self.free_rectangles.as_slice()
    }

    /// Index of the free rectangle with the smallest area that fits
    /// `width` x `height` (the earliest on ties), if any.
    pub fn best_rect(&self, width: u32, height: u32) -> (r: Option<usize>)
        requires
            self.wf(),
        ensures
            r matches Some(i) ==> best_fit(self.spec_free(), width as int, height as int, self.spec_free().len() as int) == Some(i as int),
            r is None ==> best_fit(self.spec_free(), width as int, height as int, self.spec_free().len() as int) is None,
    {
        let mut best: Option<usize> = None;
        let mut best_area: u32 = u32::MAX;
        let mut i: usize = 0;
        while i < self.free_rectangles.len()
            invariant
                self.wf(),
                i <= self.free_rectangles@.len(),
                best matches Some(b) ==> best_fit(self.free_rectangles@, width as int, height as int, i as int) == Some(b as int)
                    && b < i && best_area == area(self.free_rectangles@[b as int]),
                best is None ==> best_fit(self.free_rectangles@, width as int, height as int, i as int) is None,
                best is None ==> best_area == u32::MAX,
            decreases self.free_rectangles@.len() - i,
        {
            let rect = self.free_rectangles[i];
            if rect.can_fit(width, height) {
                proof {
                    assert(rect_inside(rect, self.size));
                    assert(rect.width * rect.height <= self.size.width * self.size.height) by (nonlinear_arith)
                        requires rect.width <= self.size.width, rect.height <= self.size.height;
                }
                let a = rect.width * rect.height;
                if a < best_area {
                    best_area = a;
                    best = Some(i);
                }
            }
            i = i + 1;
        }
        best
    }

    /// Double both sides of the atlas; the three new quarters become free.
    pub fn expand(&mut self)
        requires
            old(self).wf(),
            can_expand(old(self).spec_size().width as nat, old(self).spec_size().height as nat),
        ensures
            final(self).wf(),
            final(self).spec_size() == (Size {
                width: (2 * old(self).spec_size().width) as u32,
                height: (2 * old(self).spec_size().height) as u32,
            }),
            final(self).spec_free() == expanded_free(old(self).spec_free(), old(self).spec_size().width, old(self).spec_size().height),
    {
        let old_size = self.size;
        self.size = Size::new(old_size.width * 2, old_size.height * 2);
        self.free_rectangles.push(AtlasRect::new(old_size.width, 0, old_size.width, old_size.height));
        self.free_rectangles.push(AtlasRect::new(0, old_size.height, old_size.width, old_size.height));
        self.free_rectangles.push(AtlasRect::new(old_size.width, old_size.height, old_size.width, old_size.height));
        assert(self.free_rectangles@ =~= expanded_free(old(self).free_rectangles@, old_size.width, old_size.height));
    }
    /// Put an image of `width` x `height` in the atlas, doubling the atlas
    /// first as often as needed. Returns the rectangle the image occupies
    /// and how many times the atlas doubled.
    pub fn place(&mut self, width: u32, height: u32) -> (r: (AtlasRect, u64))
        requires
            old(self).wf(),
            placeable(old(self).spec_size().width, old(self).spec_size().height, old(self).spec_free(), width, height),
        ensures
            final(self).wf(),
            ({
                let o = place_outcome(old(self).spec_size().width, old(self).spec_size().height, old(self).spec_free(), width, height);
                &&& r.0 == o.0
                &&& r.1 == o.1
                &&& final(self).spec_size() == (Size { width: o.2, height: o.3 })
                &&& final(self).spec_free() == o.4
            }),
    {
        let ghost oo = place_outcome(self.size.width, self.size.height, self.free_rectangles@, width, height);
        proof { lemma_doublings_bounded(self.size.width, self.size.height, self.free_rectangles@, width, height); }
        let mut expansions: u64 = 0;
        loop
            invariant
                self.wf(),
                placeable(self.size.width, self.size.height, self.free_rectangles@, width, height),
                ({
                    let oc = place_outcome(self.size.width, self.size.height, self.free_rectangles@, width, height);
                    &&& oo.0 == oc.0
                    &&& oo.1 == oc.1 + expansions
                    &&& oo.2 == oc.2
                    &&& oo.3 == oc.3
                    &&& oo.4 == oc.4
                }),
                oo.1 <= 0x2_0000_0000,
                oo == place_outcome(old(self).size.width, old(self).size.height, old(self).free_rectangles@, width, height),
            decreases 0x2_0000_0000 - self.size.width - self.size.height,
        {
            match self.best_rect(width, height) {
                Some(i) => {
                    let ghost cur_free = self.free_rectangles@;
                    proof {
                        lemma_best_fit_fits(self.free_rectangles@, width as int, height as int, self.free_rectangles@.len() as int);
                        assert(rect_inside(self.free_rectangles@[i as int], self.size));
                    }
                    let rect = self.free_rectangles.remove(i);
                    let mut pieces = rect.split(width, height);
                    let ghost removed = self.free_rectangles@;
                    self.free_rectangles.append(&mut pieces);
                    proof {
                        assert forall|j: int| 0 <= j < self.free_rectangles@.len() implies rect_inside(
                            #[trigger] self.free_rectangles@[j],
                            self.size,
                        ) by {
                            if j >= removed.len() {
                                lemma_pieces_inside(rect, width as int, height as int, self.size);
                            }
                        }
                    }
                    proof {
                        assert(self.free_rectangles@ =~= cur_free.remove(i as int) + split_pieces(rect, width as int, height as int));
                        let oc = place_outcome(self.size.width, self.size.height, cur_free, width, height);
                        assert(oc.4 == cur_free.remove(i as int) + split_pieces(rect, width as int, height as int));
                    }
                    return (AtlasRect { x: rect.x, y: rect.y, width, height }, expansions);
                },
                None => {
                    proof { lemma_doublings_bounded(self.size.width, self.size.height, self.free_rectangles@, width, height); }
                    self.expand();
                    expansions = expansions + 1;
                },
            }
        }
    }
}

impl TextureAtlas {
    /// Whether an image of `width` x `height` can be placed, now or after
    /// doubling the atlas; see [`placeable`].
    pub fn can_place(&self, width: u32, height: u32) -> (b: bool)
        requires
            self.wf(),
        ensures
            b == placeable(self.spec_size().width, self.spec_size().height, self.spec_free(), width, height),
    {
        if self.best_rect(width, height).is_some() {
            return true;
        }
        let mut cw = self.size.width;
        let mut ch = self.size.height;
        let ghost mut free = self.free_rectangles@;
        proof {
            lemma_best_fit_some(free, width as int, height as int, free.len() as int);
        }
        loop
            invariant
                placeable(self.size.width, self.size.height, self.free_rectangles@, width, height)
                    == placeable(cw, ch, free, width, height),
                forall|i: int| 0 <= i < free.len() ==> !fits(#[trigger] free[i], width as int, height as int),
            decreases 0x2_0000_0000 - cw - ch,
        {
            proof {
                lemma_best_fit_some(free, width as int, height as int, free.len() as int);
            }
            if (cw == 0 && ch == 0) || !can_double(cw, ch) {
                return false;
            }
            let ghost next = expanded_free(free, cw, ch);
            proof {
                lemma_best_fit_some(next, width as int, height as int, next.len() as int);
                assert(next[free.len() as int] == AtlasRect { x: cw, y: 0, width: cw, height: ch });
            }
            if width <= cw && height <= ch {
                proof {
                    assert(fits(next[free.len() as int], width as int, height as int));
                    assert(best_fit(next, width as int, height as int, next.len() as int) is Some);
                    assert(placeable((2 * cw) as u32, (2 * ch) as u32, next, width, height));
                    assert(best_fit(free, width as int, height as int, free.len() as int) is None);
                }
                return true;
            }
            proof {
                assert forall|i: int| 0 <= i < next.len() implies !fits(#[trigger] next[i], width as int, height as int) by {
                    if i < free.len() {
                        assert(next[i] == free[i]);
                    }
                }
                free = next;
            }
            cw = cw * 2;
            ch = ch * 2;
        }
    }

    /// Put an image of `width` x `height` in the atlas as [`Self::place`]
    /// does, when it can be placed at all; otherwise return `None` and leave
    /// the atlas as it is.
    pub fn try_place(&mut self, width: u32, height: u32) -> (r: Option<(AtlasRect, u64)>)
        requires
            old(self).wf(),
        ensures
            final(self).wf(),
            r is None <==> !placeable(old(self).spec_size().width, old(self).spec_size().height, old(self).spec_free(), width, height),
            r is None ==> final(self).spec_size() == old(self).spec_size() && final(self).spec_free() == old(self).spec_free(),
            r matches Some(p) ==> ({
                let o = place_outcome(old(self).spec_size().width, old(self).spec_size().height, old(self).spec_free(), width, height);
                &&& p.0 == o.0
                &&& p.1 == o.1
                &&& final(self).spec_size() == (Size { width: o.2, height: o.3 })
                &&& final(self).spec_free() == o.4
            }),
    {
        if self.can_place(width, height) {
            Some(self.place(width, height))
        } else {
            None
        }
    }
}

/// Whether an atlas of `w` x `h` may double; see [`can_expand`].
fn can_double(w: u32, h: u32) -> (b: bool)
    ensures
        b == can_expand(w as nat, h as nat),
{
    let w2 = 2 * (w as u128);
    let h2 = 2 * (h as u128);
    if w2 > u32::MAX as u128 || h2 > u32::MAX as u128 {
        return false;
    }
    assert(w2 * h2 * 4 <= 0x4_0000_0000_0000_0000) by (nonlinear_arith)
        requires
            w2 <= 0xffff_ffff,
            h2 <= 0xffff_ffff,
    ;
    w2 * h2 * 4 <= u32::MAX as u128
}

/// Some free rectangle among the first `n` is chosen exactly when one of
/// them fits the image.
pub proof fn lemma_best_fit_some(free: Seq<AtlasRect>, w: int, h: int, n: int)
    requires
        0 <= n <= free.len(),
    ensures
        best_fit(free, w, h, n) is Some <==> exists|i: int| 0 <= i < n && fits(#[trigger] free[i], w, h),
    decreases n,
{
    if n > 0 {
        lemma_best_fit_some(free, w, h, n - 1);
        if best_fit(free, w, h, n) is None {
            assert forall|i: int| 0 <= i < n implies !fits(#[trigger] free[i], w, h) by {
                if i == n - 1 {
                } else {
                    assert(best_fit(free, w, h, n - 1) is None);
                }
            }
        }
    }
}

/// The pieces split off a rectangle lie inside any atlas that holds the
/// rectangle.
pub proof fn lemma_pieces_inside(r: AtlasRect, w: int, h: int, size: Size)
    requires
        rect_inside(r, size),
        fits(r, w, h),
        0 <= w,
        0 <= h,
    ensures
        forall|j: int| 0 <= j < split_pieces(r, w, h).len() ==> rect_inside(#[trigger] split_pieces(r, w, h)[j], size),
{
    let pieces = split_pieces(r, w, h);
    assert forall|j: int| 0 <= j < pieces.len() implies rect_inside(#[trigger] pieces[j], size) by {
        let right = if r.width > w {
            seq![AtlasRect { x: (r.x + w) as u32, y: r.y, width: (r.width - w) as u32, height: h as u32 }]
        } else {
            Seq::empty()
        };
        let bottom = if r.height > h {
            seq![AtlasRect { x: r.x, y: (r.y + h) as u32, width: r.width, height: (r.height - h) as u32 }]
        } else {
            Seq::empty()
        };
        let corner = if r.width > w && r.height > h {
            seq![AtlasRect { x: (r.x + w) as u32, y: (r.y + h) as u32, width: (r.width - w) as u32, height: (r.height - h) as u32 }]
        } else {
            Seq::empty()
        };
        assert(pieces == right + bottom + corner);
        if j < right.len() {
            assert(pieces[j] == right[j]);
        } else if j < right.len() + bottom.len() {
            assert(pieces[j] == bottom[j - right.len()]);
        } else {
            assert(pieces[j] == corner[j - right.len() - bottom.len()]);
        }
    }
}

/// The rectangle that best fit picks exists and fits.
pub proof fn lemma_best_fit_fits(free: Seq<AtlasRect>, w: int, h: int, n: int)
    requires
        n <= free.len(),
    ensures
        best_fit(free, w, h, n) matches Some(i) ==> 0 <= i < n && fits(free[i], w, h),
    decreases n,
{
    if n > 0 {
        lemma_best_fit_fits(free, w, h, n - 1);
    }
}

/// Placing never doubles the atlas more than `2^33` times (the sides grow
/// with every doubling).
proof fn lemma_doublings_bounded(sw: u32, sh: u32, free: Seq<AtlasRect>, w: u32, h: u32)
    ensures
        place_outcome(sw, sh, free, w, h).1 + sw + sh <= 0x2_0000_0000,
    decreases 0x2_0000_0000 - sw - sh,
{
    if best_fit(free, w as int, h as int, free.len() as int) is None && sw + sh != 0 && can_expand(sw as nat, sh as nat) {
        lemma_doublings_bounded((2 * sw) as u32, (2 * sh) as u32, expanded_free(free, sw, sh), w, h);
    }
}


/// Whether every rectangle of `free` lies inside an atlas of `size`.
pub open spec fn all_inside(free: Seq<AtlasRect>, size: Size) -> bool {
    forall|i: int| 0 <= i < free.len() ==> rect_inside(#[trigger] free[i], size)
}

/// A placed image lies inside the atlas it ends up in, and the atlas keeps
/// all its free rectangles inside.
pub proof fn lemma_placed_inside(sw: u32, sh: u32, free: Seq<AtlasRect>, w: u32, h: u32)
    requires
        all_inside(free, Size { width: sw, height: sh }),
        placeable(sw, sh, free, w, h),
    ensures
        ({
            let o = place_outcome(sw, sh, free, w, h);
            &&& rect_inside(o.0, Size { width: o.2, height: o.3 })
            &&& all_inside(o.4, Size { width: o.2, height: o.3 })
        }),
    decreases 0x2_0000_0000 - sw - sh,
{
    let size = Size { width: sw, height: sh };
    match best_fit(free, w as int, h as int, free.len() as int) {
        Some(i) => {
            lemma_best_fit_fits(free, w as int, h as int, free.len() as int);
            let r = free[i];
            assert(rect_inside(r, size));
            lemma_pieces_inside(r, w as int, h as int, size);
            let rest = free.remove(i);
            let pieces = split_pieces(r, w as int, h as int);
            assert forall|j: int| 0 <= j < (rest + pieces).len() implies rect_inside(#[trigger] (rest + pieces)[j], size) by {
                if j < rest.len() {
                    if j < i {
                        assert(rest[j] == free[j]);
                    } else {
                        assert(rest[j] == free[j + 1]);
                    }
                } else {
                    assert((rest + pieces)[j] == pieces[j - rest.len()]);
                }
            }
        },
        None => {
            let big = Size { width: (2 * sw) as u32, height: (2 * sh) as u32 };
            let ef = expanded_free(free, sw, sh);
            assert forall|j: int| 0 <= j < ef.len() implies rect_inside(#[trigger] ef[j], big) by {
                if j < free.len() {
                    assert(ef[j] == free[j]);
                }
            }
            lemma_placed_inside((2 * sw) as u32, (2 * sh) as u32, ef, w, h);
        },
    }
}

/// The free pieces split off around a placed image never overlap it.
pub proof fn lemma_pieces_apart_from_image(r: AtlasRect, w: int, h: int)
    requires
        fits(r, w, h),
        0 <= w,
        0 <= h,
        r.x + r.width <= u32::MAX,
        r.y + r.height <= u32::MAX,
    ensures
        forall|j: int| 0 <= j < split_pieces(r, w, h).len() ==> {
            let p = #[trigger] split_pieces(r, w, h)[j];
            rects_disjoint(p.x as int, p.y as int, p.width as int, p.height as int, r.x as int, r.y as int, w, h)
        },
{
    let pieces = split_pieces(r, w, h);
    assert forall|j: int| 0 <= j < pieces.len() implies {
        let p = #[trigger] pieces[j];
        rects_disjoint(p.x as int, p.y as int, p.width as int, p.height as int, r.x as int, r.y as int, w, h)
    } by {
        let right = if r.width > w {
            seq![AtlasRect { x: (r.x + w) as u32, y: r.y, width: (r.width - w) as u32, height: h as u32 }]
        } else {
            Seq::empty()
        };
        let bottom = if r.height > h {
            seq![AtlasRect { x: r.x, y: (r.y + h) as u32, width: r.width, height: (r.height - h) as u32 }]
        } else {
            Seq::empty()
        };
        let corner = if r.width > w && r.height > h {
            seq![AtlasRect { x: (r.x + w) as u32, y: (r.y + h) as u32, width: (r.width - w) as u32, height: (r.height - h) as u32 }]
        } else {
            Seq::empty()
        };
        assert(pieces == right + bottom + corner);
        if j < right.len() {
            assert(pieces[j] == right[j]);
        } else if j < right.len() + bottom.len() {
            assert(pieces[j] == bottom[j - right.len()]);
        } else {
            assert(pieces[j] == corner[j - right.len() - bottom.len()]);
        }
    }
}


/// Turn an 8-bit coverage mask into white RGBA pixels whose alpha is the
/// coverage: four bytes per input byte.
pub fn coverage_to_white_rgba(coverage: &[u8]) -> (rgba: Vec<u8>)
    requires
        coverage@.len() * 4 <= isize::MAX,
    ensures
        rgba@.len() == coverage@.len() * 4,
        forall|i: int| 0 <= i < coverage@.len() ==> {
            &&& #[trigger] rgba@[4 * i] == 255
            &&& rgba@[4 * i + 1] == 255
            &&& rgba@[4 * i + 2] == 255
            &&& rgba@[4 * i + 3] == coverage@[i]
        },
{
    let mut rgba_data: Vec<u8> = Vec::with_capacity(coverage.len() * 4);
    let mut i: usize = 0;
    while i < coverage.len()
        invariant
            i <= coverage@.len(),
            rgba_data@.len() == 4 * i,
            forall|j: int| 0 <= j < i ==> {
                &&& #[trigger] rgba_data@[4 * j] == 255
                &&& rgba_data@[4 * j + 1] == 255
                &&& rgba_data@[4 * j + 2] == 255
                &&& rgba_data@[4 * j + 3] == coverage@[j]
            },
        decreases coverage@.len() - i,
    {
        let alpha = coverage[i];
        let ghost before = rgba_data@;
        rgba_data.push(255);
        rgba_data.push(255);
        rgba_data.push(255);
        rgba_data.push(alpha);
        assert(rgba_data@ == before + seq![255u8, 255u8, 255u8, alpha]);
        assert forall|j: int| 0 <= j < i + 1 implies {
            &&& #[trigger] rgba_data@[4 * j] == 255
            &&& rgba_data@[4 * j + 1] == 255
            &&& rgba_data@[4 * j + 2] == 255
            &&& rgba_data@[4 * j + 3] == coverage@[j]
        } by {
            if j < i {
                assert(rgba_data@[4 * j] == before[4 * j]);
                assert(rgba_data@[4 * j + 1] == before[4 * j + 1]);
                assert(rgba_data@[4 * j + 2] == before[4 * j + 2]);
                assert(rgba_data@[4 * j + 3] == before[4 * j + 3]);
            }
        }
        i = i + 1;
    }
    rgba_data
}

} // verus!
