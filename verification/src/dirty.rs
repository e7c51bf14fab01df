use vstd::prelude::*;

verus! {

/// A value with a flag that records whether it was handed out for change
/// since the flag was last cleared.
#[derive(Clone, Copy, Debug)]
pub struct DirtyTracked<T> {
    pub value: T,
    pub dirty: bool,
}

impl<T> DirtyTracked<T> {
    /// A clean value.
    #[inline]
    pub fn new(value: T) -> (d: DirtyTracked<T>)
        ensures
            d.value == value,
            !d.dirty,
    {
        DirtyTracked { value, dirty: false }
    }

    /// A clean value.
    pub fn from(value: T) -> (d: DirtyTracked<T>)
        ensures
            d.value == value,
            !d.dirty,
    {
        DirtyTracked { value, dirty: false }
    }

    /// The value, for reading; the flag is left alone.
    pub fn get(&self) -> (r: &T)
        ensures
            *r == self.value,
    {
        &self.value
    }

    /// The value, for changing; this marks it dirty.
    pub fn get_mut(&mut self) -> (r: &mut T)
        ensures
            *r == old(self).value,
            final(self).value == *final(r),
            final(self).dirty,
    {
        self.dirty = true;
        &mut self.value
    }
}

/// A set of change flags packed in a byte: bit `i` is set when the part it
/// stands for changed since it was last brought up to date.
#[derive(Clone, Copy, PartialEq, Eq, Structural, Debug)]
pub struct DirtyFlags {
    pub bits: u8,
}

/// The font of a text changed.
pub const FONT_LABEL: u8 = 1;

/// The content of a text changed.
pub const CONTENT: u8 = 2;

/// The transform changed.
pub const TRANSFORM: u8 = 4;

/// The color changed.
pub const COLOR: u8 = 8;

/// All four text flags.
pub const ALL_TEXT: u8 = 15;

impl DirtyFlags {
    /// No flag set.
    pub fn new() -> (f: DirtyFlags)
        ensures
            f.bits == 0,
    {
        DirtyFlags { bits: 0 }
    }

    /// Whether any bit of `flag` is set.
    #[inline]
    pub fn changed(&self, flag: u8) -> (b: bool)
        ensures
            b == (self.bits & flag != 0),
    {
        self.bits & flag != 0
    }

    /// Set the bits of `flag`.
    #[inline]
    pub fn mark(&mut self, flag: u8)
        ensures
            final(self).bits == old(self).bits | flag,
    {
        self.bits = self.bits | flag;
    }

    /// Set all four text flags.
    #[inline]
    pub fn mark_all(&mut self)
        ensures
            final(self).bits == ALL_TEXT,
    {
        self.bits = FONT_LABEL | CONTENT | TRANSFORM | COLOR;
        assert(1u8 | 2u8 | 4u8 | 8u8 == 15u8) by (bit_vector);
    }

    /// Clear the bits of `flag`, keeping the others.
    #[inline]
    pub fn reset_one(&mut self, flag: u8)
        ensures
            final(self).bits == old(self).bits & !flag,
    {
        self.bits = self.bits & !flag;
    }

    /// Clear every flag.
    #[inline]
    pub fn clear_all(&mut self)
        ensures
            final(self).bits == 0,
    {
        self.bits = 0;
    }

    /// Whether any flag is set.
    #[inline]
    pub fn is_dirty(&self) -> (b: bool)
        ensures
            b == (self.bits != 0),
    {
        self.bits != 0
    }
}

/// Clearing a flag clears exactly its bits: tested afterwards it is unset,
/// and every flag that shares no bit with it reads as before.
pub proof fn lemma_reset_one_is_local(bits: u8, flag: u8, other: u8)
    requires
        flag & other == 0,
    ensures
        (bits & !flag) & flag == 0,
        ((bits & !flag) & other != 0) == (bits & other != 0),
{
    assert((bits & !flag) & flag == 0) by (bit_vector);
    assert(((bits & !flag) & other != 0) == (bits & other != 0)) by (bit_vector)
        requires
            flag & other == 0,
    ;
}

/// Marking a flag makes it read as set and leaves the others' reading
/// unchanged.
pub proof fn lemma_mark_is_local(bits: u8, flag: u8, other: u8)
    requires
        flag != 0,
        flag & other == 0,
    ensures
        (bits | flag) & flag != 0,
        ((bits | flag) & other != 0) == (bits & other != 0),
{
    assert((bits | flag) & flag != 0) by (bit_vector)
        requires
            flag != 0,
    ;
    assert(((bits | flag) & other != 0) == (bits & other != 0)) by (bit_vector)
        requires
            flag & other == 0,
    ;
}

/// Whether a text rebuild lays the text out again: when its content changed.
pub open spec fn rebuild_relayouts(bits: u8) -> bool {
    bits & 2u8 != 0
}

/// The flags after the layout step of a rebuild: new content makes the glyph
/// instances stale as if transform and color had changed.
pub open spec fn after_layout(bits: u8) -> u8 {
    if bits & 2u8 != 0 {
        (bits & !2u8) | 4u8 | 8u8
    } else {
        bits
    }
}

/// Whether a text rebuild regenerates its glyph instances: when, after the
/// layout step, the transform or color is stale.
pub open spec fn rebuild_regenerates(bits: u8) -> bool {
    after_layout(bits) & 4u8 != 0 || after_layout(bits) & 8u8 != 0
}

/// The flags after a text rebuild. Nothing happens unless the content,
/// transform or color changed; work done clears its flags, and the font flag
/// is left as it is.
pub open spec fn rebuild_flags(bits: u8) -> u8 {
    if rebuild_regenerates(bits) {
        (after_layout(bits) & !4u8) & !8u8
    } else {
        after_layout(bits)
    }
}

/// Decide the work of a text rebuild and update the flags accordingly;
/// returns (lay out again, regenerate glyph instances).
pub fn plan_text_rebuild(flags: &mut DirtyFlags) -> (r: (bool, bool))
    ensures
        r == (rebuild_relayouts(old(flags).bits), rebuild_regenerates(old(flags).bits)),
        final(flags).bits == rebuild_flags(old(flags).bits),
{
    let ghost b0 = flags.bits;
    if !flags.changed(CONTENT) && !flags.changed(TRANSFORM) && !flags.changed(COLOR) {
        assert(!rebuild_regenerates(b0) && rebuild_flags(b0) == b0) by (bit_vector)
            requires
                b0 & 2u8 == 0 && b0 & 4u8 == 0 && b0 & 8u8 == 0,
        ;
        return (false, false);
    }
    let mut relayout = false;
    if flags.changed(CONTENT) {
        relayout = true;
        flags.reset_one(CONTENT);
        flags.mark(TRANSFORM | COLOR);
        let ghost b1 = flags.bits;
        assert(b1 == after_layout(b0)) by (bit_vector)
            requires
                b0 & 2u8 != 0,
                b1 == (b0 & !2u8) | (4u8 | 8u8),
        ;
    }
    assert(flags.bits == after_layout(b0));
    let mut regenerate = false;
    if flags.changed(TRANSFORM) || flags.changed(COLOR) {
        regenerate = true;
        flags.reset_one(TRANSFORM);
        flags.reset_one(COLOR);
    }
    (relayout, regenerate)
}

/// After a rebuild that did any work, content, transform and color are all
/// up to date; new content always regenerates the glyph instances; and the
/// font flag reads as before.
pub proof fn lemma_text_rebuild_settles(bits: u8)
    ensures
        (rebuild_relayouts(bits) || rebuild_regenerates(bits)) ==> rebuild_flags(bits) & 14u8 == 0,
        rebuild_relayouts(bits) ==> rebuild_regenerates(bits),
        rebuild_flags(bits) & 1u8 == bits & 1u8,
{
    assert((rebuild_relayouts(bits) || rebuild_regenerates(bits)) ==> rebuild_flags(bits) & 14u8 == 0)
        by (bit_vector);
    assert(rebuild_relayouts(bits) ==> rebuild_regenerates(bits)) by (bit_vector);
    assert(rebuild_flags(bits) & 1u8 == bits & 1u8) by (bit_vector);
}

/// What a rebuild does, flag by flag: it lays the text out again exactly
/// when the content changed; it regenerates the glyph instances exactly when
/// the content, the transform or the color changed (so a text that was only
/// moved, or only recolored, is drawn anew); and afterwards exactly those
/// three flags are clear, every other bit reading as before.
pub proof fn lemma_text_rebuild_by_flags(bits: u8)
    ensures
        rebuild_relayouts(bits) == (bits & CONTENT != 0),
        rebuild_regenerates(bits) == (bits & CONTENT != 0 || bits & TRANSFORM != 0 || bits & COLOR != 0),
        rebuild_flags(bits) == bits & !(CONTENT | TRANSFORM | COLOR),
        rebuild_flags(bits) & TRANSFORM == 0,
{
    assert(rebuild_regenerates(bits) == (bits & 2u8 != 0 || bits & 4u8 != 0 || bits & 8u8 != 0)) by (bit_vector);
    assert(rebuild_flags(bits) == bits & !(2u8 | 4u8 | 8u8)) by (bit_vector);
    assert(rebuild_flags(bits) & 4u8 == 0) by (bit_vector);
}

} // verus!
