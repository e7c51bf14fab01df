use vstd::prelude::*;

use crate::geometry::{rects_disjoint, Size};
use crate::image_decode::{decode_rgba, image_error_message};
use crate::names::NameMap;

verus! {

/// Where an image sits in the atlas, in pixels.
#[derive(Clone, Copy, PartialEq, Eq, Structural, Debug)]
pub struct AtlasRegion {
    pub x: u32,
    pub y: u32,
    pub width: u32,
    pub height: u32,
}

/// Whether two regions share no pixel.
pub open spec fn regions_disjoint(a: AtlasRegion, b: AtlasRegion) -> bool {
    rects_disjoint(
        a.x as int, a.y as int, a.width as int, a.height as int,
        b.x as int, b.y as int, b.width as int, b.height as int,
    )
}

/// Whether two regions, each grown by [`PADDING`] on every side, share no
/// pixel: the images are at least twice the padding apart.
pub open spec fn regions_padded_apart(a: AtlasRegion, b: AtlasRegion) -> bool {
    let p = PADDING as int;
    rects_disjoint(
        a.x - p, a.y - p, a.width + 2 * p, a.height + 2 * p,
        b.x - p, b.y - p, b.width + 2 * p, b.height + 2 * p,
    )
}

/// A horizontal band of the atlas that images are placed in from left to
/// right: its top edge, its height and the first free column.
#[derive(Clone, Copy, PartialEq, Eq, Structural, Debug)]
pub struct Shelf {
    pub y: u32,
    pub height: u32,
    pub x: u32,
}

/// Why an image could not be packed.
#[derive(Clone, Copy, PartialEq, Eq, Structural, Debug)]
pub enum PackError {
    /// The padded image is wider or taller than the whole atlas.
    TooLarge { width: u32, height: u32, atlas_width: u32, atlas_height: u32 },
    /// No shelf has room and there is no height left for a new one.
    Full,
}

/// Why an image file could not be put in the atlas.
#[derive(Clone, PartialEq, Eq, Debug)]
pub enum LoadError {
    /// The bytes are not an image that can be decoded; the decoder's message.
    Decode(String),
    /// The image is so large that its padded size does not fit in 32 bits.
    Oversized { width: u32, height: u32 },
    /// The image could not be packed.
    Pack(PackError),
}

/// The largest atlas side the packer accepts: larger than any GPU texture,
/// and small enough that a side plus a padded image width stays in 32 bits.
pub const MAX_ATLAS_SIDE: u32 = 0x7fff_ffff;

/// Pixels of padding on each side of a packed image, against bleeding when
/// the atlas is sampled.
pub const PADDING: u32 = 2;

/// Whether a padded image of `pw` x `ph` fits on `shelf` of an atlas `aw`
/// pixels wide.
pub open spec fn shelf_fits(shelf: Shelf, pw: int, ph: int, aw: int) -> bool {
    shelf.x + pw <= aw && ph <= shelf.height
}

/// The first shelf at or after `i` on which the padded image fits.
pub open spec fn first_fit(shelves: Seq<Shelf>, pw: int, ph: int, aw: int, i: int) -> Option<int>
    decreases shelves.len() - i,
{
    if i < 0 || i >= shelves.len() {
        None
    } else if shelf_fits(shelves[i], pw, ph, aw) {
        Some(i)
    } else {
        first_fit(shelves, pw, ph, aw, i + 1)
    }
}

/// Shelves lie inside the atlas, below each other in order, above `current_y`.
pub open spec fn shelves_stacked(shelves: Seq<Shelf>, size: Size, current_y: u32) -> bool {
    &&& forall|i: int| 0 <= i < shelves.len() ==> {
        &&& (#[trigger] shelves[i]).x <= size.width
        &&& shelves[i].y + shelves[i].height <= current_y
    }
    &&& forall|i: int, j: int| 0 <= i < j < shelves.len() ==> #[trigger] shelves[i].y + shelves[i].height
        <= #[trigger] shelves[j].y
}

/// Every region lies on its shelf `owner[name]`, padded, left of the
/// shelf's free column.
pub open spec fn regions_on_shelves(
    regions: Map<Seq<char>, AtlasRegion>,
    owner: Map<Seq<char>, int>,
    shelves: Seq<Shelf>,
) -> bool {
    forall|n: Seq<char>| #[trigger] regions.contains_key(n) ==> region_on_shelf(regions[n], owner, n, shelves)
}

/// Region `r`, named `n`, lies on its shelf `owner[n]`, padded, left of the
/// shelf's free column.
pub open spec fn region_on_shelf(r: AtlasRegion, owner: Map<Seq<char>, int>, n: Seq<char>, shelves: Seq<Shelf>) -> bool {
    let p = PADDING as int;
    let k = owner[n];
    &&& owner.contains_key(n)
    &&& 0 <= k < shelves.len()
    &&& r.y == shelves[k].y + p
    &&& r.height + 2 * p <= shelves[k].height
    &&& r.x >= p
    &&& r.x + r.width + p <= shelves[k].x
}

/// No two regions come closer than twice the padding.
pub open spec fn regions_apart(regions: Map<Seq<char>, AtlasRegion>) -> bool {
    forall|a: Seq<char>, b: Seq<char>|
        regions.contains_key(a) && regions.contains_key(b) && a != b ==> regions_padded_apart(
            #[trigger] regions[a],
            #[trigger] regions[b],
        )
}

/// Shelf packing of images into a texture atlas.
///
/// Images are placed left to right on horizontal shelves; a new shelf is
/// opened below the last one when no shelf has room. Every image is kept
/// [`PADDING`] pixels away from its neighbours. Packing an image under a
/// name that is already packed returns the earlier placement.
pub struct TextureAtlas {
    size: Size,
    shelves: Vec<Shelf>,
    current_y: u32,
    regions: NameMap<AtlasRegion>,
    padding: u32,
    region_shelf: Ghost<Map<Seq<char>, int>>,
}

impl TextureAtlas {
    /// The atlas size in pixels.
    pub closed spec fn spec_size(&self) -> Size {
        self.size
    }

    /// The atlas size in pixels.
    pub fn size(&self) -> (s: Size)
        ensures
            s == self.spec_size(),
    {
        self.size
    }

    /// The shelves, top to bottom.
    pub closed spec fn spec_shelves(&self) -> Seq<Shelf> {
        self.shelves@
    }

    /// The height taken by shelves so far.
    pub closed spec fn spec_current_y(&self) -> u32 {
        self.current_y
    }

    /// The packed regions with their names, in packing order.
    pub closed spec fn spec_placements(&self) -> Seq<(Seq<char>, AtlasRegion)> {
        self.regions.spec_entries().map_values(|e: (String, AtlasRegion)| (e.0@, e.1))
    }

    /// The packed regions by name.
    pub closed spec fn spec_regions(&self) -> Map<Seq<char>, AtlasRegion> {
        self.regions@
    }

    /// The packing invariant: shelves are stacked top to bottom inside the
    /// atlas, and every region lies inside its shelf, left of the shelf's
    /// free column, with padding around it, and overlaps no other region.
    pub closed spec fn wf(&self) -> bool {
        &&& self.regions.wf()
        &&& self.padding == PADDING
        &&& self.size.width <= MAX_ATLAS_SIDE
        &&& self.size.height <= MAX_ATLAS_SIDE
        &&& self.current_y <= self.size.height
        &&& shelves_stacked(self.shelves@, self.size, self.current_y)
        &&& self.regions@.dom().finite()
        &&& regions_on_shelves(self.regions@, self.region_shelf@, self.shelves@)
        &&& regions_apart(self.regions@)
        &&& padded_area_sum(self.spec_placements()) <= shelf_area(self.shelves@)
    }

    /// An empty atlas of the given size.
    pub fn new(size: Size) -> (a: TextureAtlas)
        requires
            size.width <= MAX_ATLAS_SIDE,
            size.height <= MAX_ATLAS_SIDE,
        ensures
            a.wf(),
            a.spec_size() == size,
            a.spec_shelves() == Seq::<Shelf>::empty(),
            a.spec_current_y() == 0,
            a.spec_regions() == Map::<Seq<char>, AtlasRegion>::empty(),
            a.spec_placements() == Seq::<(Seq<char>, AtlasRegion)>::empty(),
    {
        let a = TextureAtlas {
            size,
            shelves: Vec::new(),
            current_y: 0,
            regions: NameMap::new(),
            padding: PADDING,
            region_shelf: Ghost(Map::empty()),
        };
        proof {
            assert(a.regions@.dom() =~= Set::<Seq<char>>::empty());
            assert(a.spec_placements() =~= Seq::<(Seq<char>, AtlasRegion)>::empty());
        }
        a
    }

    /// Whether an image is packed under `name`.
    pub fn contains(&self, name: &str) -> (b: bool)
        requires
            self.wf(),
        ensures
            b == self.spec_regions().contains_key(name@),
    {
        self.regions.contains(&name.to_owned())
    }

    /// The region packed under `name`, if any.
    pub fn get_region(&self, name: &str) -> (r: Option<AtlasRegion>)
        requires
            self.wf(),
        ensures
            r == (if self.spec_regions().contains_key(name@) {
                Some(self.spec_regions()[name@])
            } else {
                None
            }),
    {
        match self.regions.get(&name.to_owned()) {
            Some(r) => Some(*r),
            None => None,
        }
    }
    /// Packed images never overlap: no two regions share a pixel.
    pub proof fn lemma_regions_disjoint(&self)
        requires
            self.wf(),
        ensures
            forall|a: Seq<char>, b: Seq<char>|
                self.spec_regions().contains_key(a) && self.spec_regions().contains_key(b) && a != b
                    ==> regions_disjoint(#[trigger] self.spec_regions()[a], #[trigger] self.spec_regions()[b]),
    {
    }

    /// Packed images stay [`PADDING`] apart: grown by the padding on every
    /// side, no two regions share a pixel.
    pub proof fn lemma_regions_padded_apart(&self)
        requires
            self.wf(),
        ensures
            forall|a: Seq<char>, b: Seq<char>|
                self.spec_regions().contains_key(a) && self.spec_regions().contains_key(b) && a != b
                    ==> regions_padded_apart(#[trigger] self.spec_regions()[a], #[trigger] self.spec_regions()[b]),
    {
    }

    /// Every packed image lies inside the atlas with at least [`PADDING`]
    /// pixels to each of its edges.
    pub proof fn lemma_regions_inside(&self)
        requires
            self.wf(),
        ensures
            forall|n: Seq<char>| #[trigger] self.spec_regions().contains_key(n) ==> {
                let r = self.spec_regions()[n];
                &&& r.x >= PADDING
                &&& r.y >= PADDING
                &&& r.x + r.width + PADDING <= self.spec_size().width
                &&& r.y + r.height + PADDING <= self.spec_size().height
            },
    {
        assert forall|n: Seq<char>| #[trigger] self.spec_regions().contains_key(n) implies {
            let r = self.spec_regions()[n];
            &&& r.x >= PADDING
            &&& r.y >= PADDING
            &&& r.x + r.width + PADDING <= self.spec_size().width
            &&& r.y + r.height + PADDING <= self.spec_size().height
        } by {
            assert(region_on_shelf(self.regions@[n], self.region_shelf@, n, self.shelves@));
            let k = self.region_shelf@[n];
            assert(self.shelves@[k].x <= self.size.width);
            assert(self.shelves@[k].y + self.shelves@[k].height <= self.current_y);
        }
    }

    /// The placements list the packed regions: each is the region packed
    /// under its name, no name occurs twice, and every packed name has one.
    pub proof fn lemma_placements_are_regions(&self)
        requires
            self.wf(),
        ensures
            self.spec_placements().len() == self.spec_regions().dom().len(),
            forall|i: int|
                0 <= i < self.spec_placements().len() ==> self.spec_regions().contains_key(
                    #[trigger] self.spec_placements()[i].0,
                ) && self.spec_regions()[self.spec_placements()[i].0] == self.spec_placements()[i].1,
            forall|i: int, j: int|
                0 <= i < self.spec_placements().len() && 0 <= j < self.spec_placements().len() && i != j
                    ==> #[trigger] self.spec_placements()[i].0 != #[trigger] self.spec_placements()[j].0,
    {
        self.regions.lemma_entries_describe_map();
        let e = self.regions.spec_entries();
        assert forall|i: int| 0 <= i < self.spec_placements().len() implies self.spec_regions().contains_key(
            #[trigger] self.spec_placements()[i].0,
        ) && self.spec_regions()[self.spec_placements()[i].0] == self.spec_placements()[i].1 by {
            assert(self.spec_placements()[i] == (e[i].0@, e[i].1));
        }
        assert forall|i: int, j: int|
            0 <= i < self.spec_placements().len() && 0 <= j < self.spec_placements().len() && i != j
                implies #[trigger] self.spec_placements()[i].0 != #[trigger] self.spec_placements()[j].0 by {
            assert(self.spec_placements()[i].0 == e[i].0@);
            assert(self.spec_placements()[j].0 == e[j].0@);
        }
    }

    /// The packed images, with their padding, cover at most the whole
    /// atlas: the used share of the atlas is between none and all of it.
    pub proof fn lemma_used_within_atlas(&self)
        requires
            self.wf(),
        ensures
            padded_area_sum(self.spec_placements()) <= self.spec_size().width * self.spec_size().height,
    {
        let sh = self.shelves@;
        let w = self.size.width as int;
        lemma_shelf_area_bound(sh, w);
        if sh.len() > 0 {
            assert(sh.last() == sh[sh.len() - 1]);
            assert(sh.last().y + sh.last().height <= self.current_y);
            assert(w * (sh.last().y + sh.last().height) <= w * self.size.height) by (nonlinear_arith)
                requires
                    0 <= w,
                    sh.last().y + sh.last().height <= self.size.height,
            ;
        } else {
            assert(0 <= w * self.size.height) by (nonlinear_arith)
                requires
                    0 <= w,
            ;
        }
    }

    /// Total padded area of the packed images, in pixels.
    pub fn used_pixels(&self) -> (n: u128)
        requires
            self.wf(),
        ensures
            n == padded_area_sum(self.spec_placements()),
    {
        let entries = self.regions.entries();
        let ghost pl = self.spec_placements();
        let mut sum: u128 = 0;
        let mut i: usize = 0;
        while i < entries.len()
            invariant
                entries@ == self.regions.spec_entries(),
                pl == self.spec_placements(),
                i <= entries@.len(),
                sum == padded_area_sum(pl.take(i as int)),
                sum <= i * 0x8000_0000_0000_0000,
                self.wf(),
            decreases entries@.len() - i,
        {
            let r = entries[i].1;
            proof {
                self.regions.lemma_entry_in_view(i as int);
                let n = entries@[i as int].0@;
                assert(self.regions@.contains_key(n));
                assert(region_on_shelf(self.regions@[n], self.region_shelf@, n, self.shelves@));
                assert(self.shelves@[self.region_shelf@[n]].x <= self.size.width);
            }
            let w = r.width as u128 + (PADDING as u128) * 2;
            let h = r.height as u128 + (PADDING as u128) * 2;
            assert(w * h <= 0x8000_0000_0000_0000) by (nonlinear_arith)
                requires w <= 0x8000_0000, h <= 0x8000_0000;
            assert(pl.take(i + 1).drop_last() =~= pl.take(i as int));
            assert(pl.take(i + 1).last().1 == r);
            sum = sum + w * h;
            i = i + 1;
        }
        assert(pl.take(pl.len() as int) =~= pl);
        sum
    }

    /// Pack an image that was decoded for `name`, or report why it could
    /// not be decoded. `decoded` is either the RGBA rows with the width and
    /// height, or the decoder's message. On success, returns the region and
    /// the pixels to upload there; see [`load_outcome`].
    pub fn place_decoded(
        &mut self,
        name: &str,
        decoded: Result<(Vec<u8>, u32, u32), String>,
    ) -> (r: Result<(AtlasRegion, Vec<u8>), LoadError>)
        requires
            old(self).wf(),
        ensures
            final(self).wf(),
            final(self).spec_size() == old(self).spec_size(),
            load_outcome(
                old(self).spec_size(),
                old(self).spec_shelves(),
                old(self).spec_current_y(),
                old(self).spec_regions(),
                name@,
                decoded_view(decoded),
            ) == (load_view(r), final(self).spec_shelves(), final(self).spec_current_y(), final(self).spec_regions()),
            final(self).spec_placements() == (match r {
                Ok((reg, _)) => if old(self).spec_regions().contains_key(name@) {
                    old(self).spec_placements()
                } else {
                    old(self).spec_placements().push((name@, reg))
                },
                Err(_) => old(self).spec_placements(),
            }),
    {
        match decoded {
            Err(msg) => Err(LoadError::Decode(msg)),
            Ok((data, w, h)) => {
                if !self.contains(name) && (w > u32::MAX - 2 * PADDING || h > u32::MAX - 2 * PADDING) {
                    return Err(LoadError::Oversized { width: w, height: h });
                }
                match self.pack(name, w, h) {
                    Ok(region) => Ok((region, data)),
                    Err(e) => Err(LoadError::Pack(e)),
                }
            },
        }
    }

    /// Decode an image file and pack it under `name`. On success, returns
    /// the region and the decoded pixels (8-bit RGBA rows) to upload there.
    ///
    /// Whatever the decoder gave back — pixels holding at least four bytes
    /// per pixel, or a message — the atlas and the result are what
    /// [`Self::place_decoded`] makes of it.
    pub fn load_image(&mut self, name: &str, bytes: &[u8]) -> (r: Result<(AtlasRegion, Vec<u8>), LoadError>)
        requires
            old(self).wf(),
        ensures
            final(self).wf(),
            final(self).spec_size() == old(self).spec_size(),
            exists|dec: Result<(Seq<u8>, u32, u32), String>|
                (dec matches Ok((d, w, h)) ==> d.len() >= 4 * w * h) && #[trigger] load_outcome(
                    old(self).spec_size(),
                    old(self).spec_shelves(),
                    old(self).spec_current_y(),
                    old(self).spec_regions(),
                    name@,
                    dec,
                ) == (load_view(r), final(self).spec_shelves(), final(self).spec_current_y(), final(self).spec_regions()),
            final(self).spec_placements() == (match r {
                Ok((reg, _)) => if old(self).spec_regions().contains_key(name@) {
                    old(self).spec_placements()
                } else {
                    old(self).spec_placements().push((name@, reg))
                },
                Err(_) => old(self).spec_placements(),
            }),
    {
        let decoded = match decode_rgba(bytes) {
            Ok(d) => Ok(d),
            Err(e) => Err(image_error_message(&e)),
        };
        let ghost dec = decoded_view(decoded);
        let r = self.place_decoded(name, decoded);
        assert(dec matches Ok((d, w, h)) ==> d.len() >= 4 * w * h);
        r
    }

    /// Pack an image of `width` x `height` pixels under `name`.
    ///
    /// A name that is already packed gets its earlier region back. Otherwise
    /// the image, padded by [`PADDING`] on every side, goes on the first
    /// shelf with room, or on a new shelf below the others.
    pub fn pack(&mut self, name: &str, width: u32, height: u32) -> (r: Result<AtlasRegion, PackError>)
        requires
            old(self).wf(),
            old(self).spec_regions().contains_key(name@) || (width + 2 * PADDING <= u32::MAX && height + 2
                * PADDING <= u32::MAX),
        ensures
            final(self).wf(),
            final(self).spec_size() == old(self).spec_size(),
            pack_outcome(
                old(self).spec_size(),
                old(self).spec_shelves(),
                old(self).spec_current_y(),
                old(self).spec_regions(),
                name@,
                width,
                height,
            ) == (r, final(self).spec_shelves(), final(self).spec_current_y(), final(self).spec_regions()),
            final(self).spec_placements() == (match r {
                Ok(reg) => if old(self).spec_regions().contains_key(name@) {
                    old(self).spec_placements()
                } else {
                    old(self).spec_placements().push((name@, reg))
                },
                Err(_) => old(self).spec_placements(),
            }),
    {
        let key = name.to_owned();
        match self.regions.get(&key) {
            Some(region) => {
                return Ok(*region);
            },
            None => {},
        }
        let padded_width = width + self.padding * 2;
        let padded_height = height + self.padding * 2;
        if padded_width > self.size.width || padded_height > self.size.height {
            return Err(
                PackError::TooLarge {
                    width,
                    height,
                    atlas_width: self.size.width,
                    atlas_height: self.size.height,
                },
            );
        }
        let ghost old_shelves = self.shelves@;
        let ghost pw = padded_width as int;
        let ghost ph = padded_height as int;
        let ghost aw = self.size.width as int;
        let mut i: usize = 0;
        let mut found: Option<usize> = None;
        while i < self.shelves.len() && found.is_none()
            invariant
                self.shelves@ == old_shelves,
                i <= old_shelves.len(),
                pw == padded_width as int,
                ph == padded_height as int,
                aw == self.size.width as int,
                self.size == old(self).size,
                self.size.width <= MAX_ATLAS_SIDE,
                padded_width <= self.size.width,
                forall|j: int| 0 <= j < old_shelves.len() ==> (#[trigger] old_shelves[j]).x <= self.size.width,
                found is None ==> first_fit(old_shelves, pw, ph, aw, 0) == first_fit(old_shelves, pw, ph, aw, i as int),
                found matches Some(k) ==> first_fit(old_shelves, pw, ph, aw, 0) == Some(k as int) && k < old_shelves.len()
                    && shelf_fits(old_shelves[k as int], pw, ph, aw),
            decreases old_shelves.len() + 1 - i - (if found is Some { 1int } else { 0int }),
        {
            let shelf = self.shelves[i];
            if shelf.x + padded_width <= self.size.width && padded_height <= shelf.height {
                found = Some(i);
            } else {
                assert(!shelf_fits(old_shelves[i as int], pw, ph, aw));
                assert(first_fit(old_shelves, pw, ph, aw, i as int) == first_fit(old_shelves, pw, ph, aw, i + 1));
                i = i + 1;
            }
        }
        let ghost owner = self.region_shelf@;
        let ghost old_regions = self.regions@;
        let ghost kk: int = match found { Some(k) => k as int, None => old_shelves.len() as int };
        let region = match found {
            Some(k) => {
                let shelf = self.shelves[k];
                let region = AtlasRegion {
                    x: shelf.x + self.padding,
                    y: shelf.y + self.padding,
                    width,
                    height,
                };
                self.shelves.set(k, Shelf { x: shelf.x + padded_width, ..shelf });
                proof {
                    self.region_shelf@ = owner.insert(key@, k as int);
                }
                region
            },
            None => {
                if self.current_y + padded_height > self.size.height {
                    return Err(PackError::Full);
                }
                let shelf = Shelf { y: self.current_y, height: padded_height, x: padded_width };
                let region = AtlasRegion { x: self.padding, y: self.current_y + self.padding, width, height };
                self.current_y = self.current_y + padded_height;
                self.shelves.push(shelf);
                proof {
                    self.region_shelf@ = owner.insert(key@, old_shelves.len() as int);
                }
                region
            },
        };
        self.regions.insert(key, region);
        proof {
            assert(self.spec_placements() =~= old(self).spec_placements().push((name@, region)));
            let regions = self.regions@;
            let shelves = self.shelves@;
            let own = self.region_shelf@;
            let p = PADDING as int;
            assert(owner == old(self).region_shelf@);
            assert(old_regions == old(self).regions@);
            assert(old_shelves == old(self).shelves@);
            assert(regions.dom().finite()) by {
                assert(regions.dom() =~= old_regions.dom().insert(name@));
            }
            assert forall|n: Seq<char>| #[trigger] regions.contains_key(n) implies region_on_shelf(regions[n], own, n, shelves) by {
                if n != name@ {
                    assert(old_regions.contains_key(n));
                    assert(old_regions[n] == regions[n]);
                    assert(region_on_shelf(old_regions[n], owner, n, old_shelves));
                    let k = owner[n];
                    assert(own[n] == k);
                    assert(0 <= k < old_shelves.len());
                    assert(shelves[k].y == old_shelves[k].y);
                    assert(shelves[k].height == old_shelves[k].height);
                    assert(shelves[k].x >= old_shelves[k].x);
                } else {
                    assert(regions[n] == region);
                    assert(own[n] == kk);
                }
            }
            assert forall|a: Seq<char>, b: Seq<char>|
                regions.contains_key(a) && regions.contains_key(b) && a != b implies regions_padded_apart(
                    #[trigger] regions[a],
                    #[trigger] regions[b],
                ) by {
                if a != name@ && b != name@ {
                    assert(old_regions[a] == regions[a] && old_regions[b] == regions[b]);
                } else {
                    let other = if a == name@ { b } else { a };
                    assert(old_regions.contains_key(other));
                    assert(old_regions[other] == regions[other]);
                    assert(region_on_shelf(old_regions[other], owner, other, old_shelves));
                    assert(regions[name@] == region);
                    let ka = owner[other];
                    assert(0 <= ka < old_shelves.len());
                    if ka < kk {
                        if kk < old_shelves.len() {
                            assert(old_shelves[ka].y + old_shelves[ka].height <= old_shelves[kk].y);
                        }
                    } else if ka > kk {
                        assert(old_shelves[kk].y + old_shelves[kk].height <= old_shelves[ka].y);
                    }
                }
            }
            assert forall|i: int, j: int| 0 <= i < j < shelves.len() implies #[trigger] shelves[i].y + shelves[i].height
                <= #[trigger] shelves[j].y by {
                if j < old_shelves.len() {
                    assert(old_shelves[i].y + old_shelves[i].height <= old_shelves[j].y);
                }
            }
            assert(self.regions.wf());
            assert(self.current_y <= self.size.height);
            assert forall|i: int| 0 <= i < shelves.len() implies {
                &&& (#[trigger] shelves[i]).x <= self.size.width
                &&& shelves[i].y + shelves[i].height <= self.current_y
            } by {
                if i < old_shelves.len() {
                    assert(old_shelves[i].x <= self.size.width);
                }
            }
            assert(regions_on_shelves(regions, own, shelves));
            assert(regions_apart(regions));
            assert(shelves_stacked(shelves, self.size, self.current_y));
            let pl0 = old(self).spec_placements();
            assert(pl0.push((name@, region)).drop_last() =~= pl0);
            assert(pw * ph >= 0) by (nonlinear_arith)
                requires
                    0 <= pw,
                    0 <= ph,
            ;
            assert(region.width + 2 * PADDING == pw && region.height + 2 * PADDING == ph);
            assert(padded_area_sum(self.spec_placements()) == padded_area_sum(pl0) + pw * ph);
            assert(padded_area_sum(pl0) <= shelf_area(old_shelves));
            if kk < old_shelves.len() {
                let sh = old_shelves[kk];
                let ns = Shelf { x: (sh.x + pw) as u32, ..sh };
                lemma_shelf_area_update(old_shelves, kk, ns);
                assert(shelves == old_shelves.update(kk, ns));
                assert(ns.x == sh.x + pw);
                assert(ns.x * ns.height == sh.x * sh.height + pw * sh.height && pw * ph <= pw * sh.height)
                    by (nonlinear_arith)
                    requires
                        ns.x == sh.x + pw,
                        ns.height == sh.height,
                        0 <= pw,
                        ph <= sh.height,
                ;
                assert(shelf_area(shelves) == shelf_area(old_shelves) + pw * sh.height);
            } else {
                let ns = Shelf { y: old(self).current_y, height: ph as u32, x: pw as u32 };
                assert(shelves == old_shelves.push(ns));
                assert(shelves.drop_last() =~= old_shelves);
                assert(shelves.last() == ns);
                assert(shelf_area(shelves) == shelf_area(old_shelves) + pw * ph);
            }
        }
        Ok(region)
    }
}

/// The area the shelves have handed out: each shelf's used width times its
/// height.
pub open spec fn shelf_area(shelves: Seq<Shelf>) -> nat
    decreases shelves.len(),
{
    if shelves.len() == 0 {
        0
    } else {
        shelf_area(shelves.drop_last()) + (shelves.last().x * shelves.last().height) as nat
    }
}

proof fn lemma_shelf_area_update(shelves: Seq<Shelf>, k: int, s: Shelf)
    requires
        0 <= k < shelves.len(),
    ensures
        shelf_area(shelves.update(k, s)) + shelves[k].x * shelves[k].height == shelf_area(shelves) + s.x
            * s.height,
    decreases shelves.len(),
{
    let u = shelves.update(k, s);
    if k == shelves.len() - 1 {
        assert(u.drop_last() =~= shelves.drop_last());
    } else {
        assert(u.drop_last() =~= shelves.drop_last().update(k, s));
        lemma_shelf_area_update(shelves.drop_last(), k, s);
    }
}

/// Shelves stacked top to bottom, none wider than `w`, hand out at most `w`
/// times the height they reach.
proof fn lemma_shelf_area_bound(shelves: Seq<Shelf>, w: int)
    requires
        forall|i: int| 0 <= i < shelves.len() ==> (#[trigger] shelves[i]).x <= w,
        forall|i: int, j: int| 0 <= i < j < shelves.len() ==> #[trigger] shelves[i].y + shelves[i].height
            <= #[trigger] shelves[j].y,
    ensures
        shelves.len() > 0 ==> shelf_area(shelves) <= w * (shelves.last().y + shelves.last().height),
    decreases shelves.len(),
{
    if shelves.len() > 0 {
        let d = shelves.drop_last();
        let l = shelves.last();
        assert(l == shelves[shelves.len() - 1]);
        assert(l.x * l.height <= w * l.height && l.x * l.height >= 0) by (nonlinear_arith)
            requires
                l.x <= w,
                0 <= l.x,
                0 <= l.height,
        ;
        assert(shelf_area(shelves) == shelf_area(d) + l.x * l.height);
        if d.len() > 0 {
            assert forall|i: int| 0 <= i < d.len() implies (#[trigger] d[i]).x <= w by {
                assert(d[i] == shelves[i]);
            }
            assert forall|i: int, j: int| 0 <= i < j < d.len() implies #[trigger] d[i].y + d[i].height
                <= #[trigger] d[j].y by {
                assert(d[i] == shelves[i] && d[j] == shelves[j]);
            }
            lemma_shelf_area_bound(d, w);
            let p = d.last();
            assert(p == shelves[d.len() - 1]);
            assert(p.y + p.height <= l.y);
            assert(w * (p.y + p.height) <= w * l.y) by (nonlinear_arith)
                requires
                    0 <= w,
                    p.y + p.height <= l.y,
            ;
            assert(w * l.y + w * l.height == w * (l.y + l.height)) by (nonlinear_arith);
        } else {
            assert(w * l.height <= w * (l.y + l.height)) by (nonlinear_arith)
                requires
                    0 <= w,
                    0 <= l.y,
            ;
        }
    }
}

/// Sum of the padded areas of the regions in `entries`.
pub open spec fn padded_area_sum(entries: Seq<(Seq<char>, AtlasRegion)>) -> nat
    decreases entries.len(),
{
    if entries.len() == 0 {
        0
    } else {
        let r = entries.last().1;
        padded_area_sum(entries.drop_last()) + ((r.width + 2 * PADDING) * (r.height + 2 * PADDING)) as nat
    }
}

/// Packing a name a second time gives back the first placement and changes
/// nothing.
pub proof fn lemma_pack_is_idempotent(
    size: Size,
    shelves: Seq<Shelf>,
    current_y: u32,
    regions: Map<Seq<char>, AtlasRegion>,
    name: Seq<char>,
    width: u32,
    height: u32,
    width2: u32,
    height2: u32,
)
    requires
        pack_outcome(size, shelves, current_y, regions, name, width, height).0 is Ok,
    ensures
        ({
            let (r1, s1, y1, m1) = pack_outcome(size, shelves, current_y, regions, name, width, height);
            pack_outcome(size, s1, y1, m1, name, width2, height2) == (r1, s1, y1, m1)
        }),
{
}

/// Packing never moves or drops an image packed before: every earlier name
/// keeps its region, and the only name that can appear is the one packed. A
/// pack that fails changes nothing.
pub proof fn lemma_pack_keeps_placements(
    size: Size,
    shelves: Seq<Shelf>,
    current_y: u32,
    regions: Map<Seq<char>, AtlasRegion>,
    name: Seq<char>,
    width: u32,
    height: u32,
)
    ensures
        ({
            let (r, s1, y1, m1) = pack_outcome(size, shelves, current_y, regions, name, width, height);
            &&& forall|n: Seq<char>| #[trigger] regions.contains_key(n) ==> m1.contains_key(n) && m1[n] == regions[n]
            &&& forall|n: Seq<char>| #[trigger] m1.contains_key(n) ==> regions.contains_key(n) || n == name
            &&& r is Err ==> s1 == shelves && y1 == current_y && m1 == regions
            &&& r matches Ok(reg) ==> m1.contains_key(name) && m1[name] == reg
        }),
{
}

proof fn lemma_first_fit_finds(shelves: Seq<Shelf>, pw: int, ph: int, aw: int, i: int, k: int)
    requires
        0 <= i <= k < shelves.len(),
        shelves[k].x + pw <= aw && ph <= shelves[k].height,
        forall|j: int| i <= j < k ==> !(shelves[j].x + pw <= aw && ph <= #[trigger] shelves[j].height),
    ensures
        first_fit(shelves, pw, ph, aw, i) == Some(k),
    decreases k - i,
{
    if i < k {
        lemma_first_fit_finds(shelves, pw, ph, aw, i + 1, k);
    }
}

proof fn lemma_first_fit_some(shelves: Seq<Shelf>, pw: int, ph: int, aw: int, i: int)
    requires
        first_fit(shelves, pw, ph, aw, i) is Some,
    ensures
        ({
            let k = first_fit(shelves, pw, ph, aw, i)->0;
            &&& i <= k < shelves.len()
            &&& shelves[k].x + pw <= aw && ph <= shelves[k].height
        }),
    decreases shelves.len() - i,
{
    if 0 <= i < shelves.len() && !shelf_fits(shelves[i], pw, ph, aw) {
        lemma_first_fit_some(shelves, pw, ph, aw, i + 1);
    }
}

proof fn lemma_first_fit_none(shelves: Seq<Shelf>, pw: int, ph: int, aw: int, i: int)
    requires
        0 <= i,
        first_fit(shelves, pw, ph, aw, i) is None,
    ensures
        forall|j: int| i <= j < shelves.len() ==> !(shelves[j].x + pw <= aw && ph <= #[trigger] shelves[j].height),
    decreases shelves.len() - i,
{
    if i < shelves.len() {
        lemma_first_fit_none(shelves, pw, ph, aw, i + 1);
    }
}

/// A new image goes on the first shelf with room for it: when shelf `k` has
/// room for the padded image (its free column plus the padded width stays
/// inside the atlas, and the padded height is at most the shelf's) and no
/// shelf before it has, the image is placed on shelf `k`, right of what is
/// already there and inside the padding, and the shelf's free column moves
/// right by the padded width. Nothing else changes but the new name.
pub proof fn lemma_pack_uses_first_shelf_with_room(
    size: Size,
    shelves: Seq<Shelf>,
    current_y: u32,
    regions: Map<Seq<char>, AtlasRegion>,
    name: Seq<char>,
    width: u32,
    height: u32,
    k: int,
)
    requires
        !regions.contains_key(name),
        width + 2 * PADDING <= size.width,
        height + 2 * PADDING <= size.height,
        0 <= k < shelves.len(),
        shelves[k].x + width + 2 * PADDING <= size.width,
        height + 2 * PADDING <= shelves[k].height,
        forall|j: int| 0 <= j < k ==> !(shelves[j].x + width + 2 * PADDING <= size.width
            && height + 2 * PADDING <= #[trigger] shelves[j].height),
    ensures
        ({
            let region = AtlasRegion {
                x: (shelves[k].x + PADDING) as u32,
                y: (shelves[k].y + PADDING) as u32,
                width,
                height,
            };
            pack_outcome(size, shelves, current_y, regions, name, width, height) == (
                Ok::<AtlasRegion, PackError>(region),
                shelves.update(k, Shelf { x: (shelves[k].x + width + 2 * PADDING) as u32, ..shelves[k] }),
                current_y,
                regions.insert(name, region),
            )
        }),
{
    let pw = width + 2 * PADDING;
    let ph = height + 2 * PADDING;
    lemma_first_fit_finds(shelves, pw, ph, size.width as int, 0, k);
}

/// A new image opens a shelf, or is refused as [`PackError::Full`], only when
/// no shelf has room for it. When none has, it opens a new shelf at the used
/// height, if the padded image fits below it, and is placed there inside the
/// padding; otherwise the atlas is full and nothing changes. Conversely, a
/// pack that is refused as full never had a shelf with room.
pub proof fn lemma_pack_full_only_without_room(
    size: Size,
    shelves: Seq<Shelf>,
    current_y: u32,
    regions: Map<Seq<char>, AtlasRegion>,
    name: Seq<char>,
    width: u32,
    height: u32,
)
    ensures
        ({
            let pw = width + 2 * PADDING;
            let ph = height + 2 * PADDING;
            let no_room = forall|j: int| 0 <= j < shelves.len() ==> !(shelves[j].x + pw <= size.width
                && ph <= #[trigger] shelves[j].height);
            let out = pack_outcome(size, shelves, current_y, regions, name, width, height);
            &&& out.0 == Err::<AtlasRegion, PackError>(PackError::Full) ==> no_room && !regions.contains_key(name)
                && current_y + ph > size.height
            &&& (!regions.contains_key(name) && pw <= size.width && ph <= size.height && no_room) ==> out == (
                if current_y + ph > size.height {
                    (Err(PackError::Full), shelves, current_y, regions)
                } else {
                    let region = AtlasRegion { x: PADDING, y: (current_y + PADDING) as u32, width, height };
                    (
                        Ok(region),
                        shelves.push(Shelf { y: current_y, height: ph as u32, x: pw as u32 }),
                        (current_y + ph) as u32,
                        regions.insert(name, region),
                    )
                })
        }),
{
    let pw = width + 2 * PADDING;
    let ph = height + 2 * PADDING;
    let aw = size.width as int;
    match first_fit(shelves, pw, ph, aw, 0) {
        Some(k) => {
            lemma_first_fit_some(shelves, pw, ph, aw, 0);
            assert(shelves[k].x + pw <= size.width && ph <= shelves[k].height);
        },
        None => {
            lemma_first_fit_none(shelves, pw, ph, aw, 0);
        },
    }
}

/// A decode outcome with the pixels as a sequence.
pub open spec fn decoded_view(d: Result<(Vec<u8>, u32, u32), String>) -> Result<(Seq<u8>, u32, u32), String> {
    match d {
        Ok((data, w, h)) => Ok((data@, w, h)),
        Err(msg) => Err(msg),
    }
}

/// A loading result with the pixels as a sequence.
pub open spec fn load_view(r: Result<(AtlasRegion, Vec<u8>), LoadError>) -> Result<(AtlasRegion, Seq<u8>), LoadError> {
    match r {
        Ok((region, px)) => Ok((region, px@)),
        Err(e) => Err(e),
    }
}

/// What loading `name` gives for a decode outcome `dec`: a decoder message
/// becomes a [`LoadError::Decode`]; an image too large for 32-bit padded
/// sizes (and not packed yet) is [`LoadError::Oversized`]; otherwise the
/// image is packed as [`pack_outcome`] says, and its pixels come back with
/// the region. Also gives the new shelves, used height and regions.
pub open spec fn load_outcome(
    size: Size,
    shelves: Seq<Shelf>,
    current_y: u32,
    regions: Map<Seq<char>, AtlasRegion>,
    name: Seq<char>,
    dec: Result<(Seq<u8>, u32, u32), String>,
) -> (Result<(AtlasRegion, Seq<u8>), LoadError>, Seq<Shelf>, u32, Map<Seq<char>, AtlasRegion>) {
    match dec {
        Err(msg) => (Err(LoadError::Decode(msg)), shelves, current_y, regions),
        Ok((data, w, h)) => if !regions.contains_key(name) && (w + 2 * PADDING > u32::MAX || h + 2 * PADDING
            > u32::MAX) {
            (Err(LoadError::Oversized { width: w, height: h }), shelves, current_y, regions)
        } else {
            let (res, s1, y1, m1) = pack_outcome(size, shelves, current_y, regions, name, w, h);
            (
                match res {
                    Ok(region) => Ok((region, data)),
                    Err(e) => Err(LoadError::Pack(e)),
                },
                s1,
                y1,
                m1,
            )
        },
    }
}

/// What packing `name` (`width` x `height`) into an atlas of `size` with
/// the given shelves, used height and regions gives: the result, and the new
/// shelves, used height and regions.
pub open spec fn pack_outcome(
    size: Size,
    shelves: Seq<Shelf>,
    current_y: u32,
    regions: Map<Seq<char>, AtlasRegion>,
    name: Seq<char>,
    width: u32,
    height: u32,
) -> (Result<AtlasRegion, PackError>, Seq<Shelf>, u32, Map<Seq<char>, AtlasRegion>) {
    let p = PADDING as int;
    let pw = width + 2 * p;
    let ph = height + 2 * p;
    if regions.contains_key(name) {
        (Ok(regions[name]), shelves, current_y, regions)
    } else if pw > size.width || ph > size.height {
        (
            Err(PackError::TooLarge { width, height, atlas_width: size.width, atlas_height: size.height }),
            shelves,
            current_y,
            regions,
        )
    } else {
        match first_fit(shelves, pw, ph, size.width as int, 0) {
            Some(k) => {
                let s = shelves[k];
                let region = AtlasRegion { x: (s.x + p) as u32, y: (s.y + p) as u32, width, height };
                (
                    Ok(region),
                    shelves.update(k, Shelf { x: (s.x + pw) as u32, ..s }),
                    current_y,
                    regions.insert(name, region),
                )
            },
            None => if current_y + ph > size.height {
                (Err(PackError::Full), shelves, current_y, regions)
            } else {
                let region = AtlasRegion { x: PADDING, y: (current_y + p) as u32, width, height };
                (
                    Ok(region),
                    shelves.push(Shelf { y: current_y, height: ph as u32, x: pw as u32 }),
                    (current_y + ph) as u32,
                    regions.insert(name, region),
                )
            },
        }
    }
}

} // verus!
