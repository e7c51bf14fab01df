use std::collections::HashMap;
use vstd::prelude::*;
use crate::handle::{Handle, handle_key, lemma_key_orders_lexicographically};

verus! {

broadcast use vstd::std_specs::hash::group_hash_axioms;

/// The key under which a text is filed: its handle's sort key.
pub open spec fn text_key(h: Handle) -> u64 {
    handle_key(h) as u64
}

/// The texts drawn with one font, in the order they were added, with the
/// state of their shared glyph-instance buffer.
#[derive(Clone, Debug)]
pub struct TextBatch {
    pub handles: Vec<Handle>,
    pub needs_rebuild: bool,
    pub total_glyphs: usize,
}

impl TextBatch {
    /// A batch with no texts and nothing to draw.
    pub fn new() -> (b: TextBatch)
        ensures
            b.handles@ == Seq::<Handle>::empty(),
            !b.needs_rebuild,
            b.total_glyphs == 0,
    {
        TextBatch { handles: Vec::new(), needs_rebuild: false, total_glyphs: 0 }
    }
}

/// `s` without the occurrences of `h`, the rest in order.
pub open spec fn without(s: Seq<Handle>, h: Handle) -> Seq<Handle>
    decreases s.len(),
{
    if s.len() == 0 {
        s
    } else {
        let rest = without(s.drop_last(), h);
        if s.last() == h {
            rest
        } else {
            rest.push(s.last())
        }
    }
}

/// No handle occurs twice in `s`.
pub open spec fn distinct_handles(s: Seq<Handle>) -> bool {
    forall|i: int, j: int| 0 <= i < j < s.len() ==> s[i] != s[j]
}

/// The handles of each font's batch.
pub open spec fn handles_of(m: Map<u64, TextBatch>) -> Map<u64, Seq<Handle>> {
    m.map_values(|b: TextBatch| b.handles@)
}

/// Each batch holds at least one text.
pub open spec fn batches_nonempty(fonts: Map<u64, Seq<Handle>>) -> bool {
    forall|f: u64| #[trigger] fonts.contains_key(f) ==> fonts[f].len() > 0
}

/// No text is in a batch twice.
pub open spec fn batches_distinct(fonts: Map<u64, Seq<Handle>>) -> bool {
    forall|f: u64| #[trigger] fonts.contains_key(f) ==> distinct_handles(fonts[f])
}

/// Every text in a batch is filed under that batch's font.
pub open spec fn batched_texts_filed(fonts: Map<u64, Seq<Handle>>, owners: Map<u64, u64>) -> bool {
    forall|f: u64, i: int|
        #![trigger fonts[f][i]]
        fonts.contains_key(f) && 0 <= i < fonts[f].len() ==> owners.contains_key(
            text_key(fonts[f][i]),
        ) && owners[text_key(fonts[f][i])] == f
}

/// Every filed text sits in the batch of the font it is filed under.
pub open spec fn filed_texts_batched(fonts: Map<u64, Seq<Handle>>, owners: Map<u64, u64>) -> bool {
    forall|t: u64| #[trigger]
        owners.contains_key(t) ==> fonts.contains_key(owners[t]) && exists|i: int|
            0 <= i < fonts[owners[t]].len() && text_key(#[trigger] fonts[owners[t]][i]) == t
}

/// The batches and the index from text to font agree.
pub open spec fn registry_wf(fonts: Map<u64, Seq<Handle>>, owners: Map<u64, u64>) -> bool {
    &&& batches_nonempty(fonts)
    &&& batches_distinct(fonts)
    &&& batched_texts_filed(fonts, owners)
    &&& filed_texts_batched(fonts, owners)
}

/// The batches after a text is added with font `f`: appended to that font's
/// batch, which is made if there was none.
pub open spec fn with_text(fonts: Map<u64, Seq<Handle>>, h: Handle, f: u64) -> Map<
    u64,
    Seq<Handle>,
> {
    if fonts.contains_key(f) {
        fonts.insert(f, fonts[f].push(h))
    } else {
        fonts.insert(f, seq![h])
    }
}

/// The batches after a text is removed: taken out of the batch of the font
/// it is filed under, and the batch dropped once it is empty.
pub open spec fn without_text(fonts: Map<u64, Seq<Handle>>, owners: Map<u64, u64>, h: Handle) -> Map<
    u64,
    Seq<Handle>,
> {
    let k = text_key(h);
    if owners.contains_key(k) && fonts.contains_key(owners[k]) {
        let f = owners[k];
        let rest = without(fonts[f], h);
        if rest.len() == 0 {
            fonts.remove(f)
        } else {
            fonts.insert(f, rest)
        }
    } else {
        fonts
    }
}

proof fn lemma_without(s: Seq<Handle>, h: Handle)
    ensures
        without(s, h).len() <= s.len(),
        forall|i: int| 0 <= i < without(s, h).len() ==> s.contains(#[trigger] without(s, h)[i]),
        forall|i: int| 0 <= i < without(s, h).len() ==> #[trigger] without(s, h)[i] != h,
        forall|x: Handle| #[trigger] s.contains(x) && x != h ==> without(s, h).contains(x),
        distinct_handles(s) ==> distinct_handles(without(s, h)),
        !s.contains(h) ==> without(s, h) == s,
    decreases s.len(),
{
    if s.len() > 0 {
        let d = s.drop_last();
        lemma_without(d, h);
        let r = without(d, h);
        assert forall|x: Handle| #[trigger] s.contains(x) && x != h implies without(s, h).contains(
            x,
        ) by {
            let i = choose|i: int| 0 <= i < s.len() && s[i] == x;
            if i < s.len() - 1 {
                assert(d[i] == x);
                assert(d.contains(x));
                assert(r.contains(x));
                let j = choose|j: int| 0 <= j < r.len() && r[j] == x;
                if s.last() != h {
                    assert(without(s, h)[j] == x);
                }
            } else {
                assert(without(s, h) == r.push(x));
                assert(without(s, h)[r.len() as int] == x);
            }
        }
        assert forall|i: int| 0 <= i < without(s, h).len() implies s.contains(
            #[trigger] without(s, h)[i],
        ) by {
            if i < r.len() {
                assert(d.contains(r[i]));
                let j = choose|j: int| 0 <= j < d.len() && d[j] == r[i];
                assert(s[j] == r[i]);
            } else {
                assert(s[s.len() - 1] == s.last());
            }
        }
        if distinct_handles(s) {
            assert(distinct_handles(d)) by {
                assert forall|i: int, j: int| 0 <= i < j < d.len() implies d[i] != d[j] by {
                    assert(s[i] == d[i] && s[j] == d[j]);
                }
            }
            if s.last() != h {
                assert forall|i: int, j: int|
                    0 <= i < j < without(s, h).len() implies without(s, h)[i] != without(
                    s,
                    h,
                )[j] by {
                    if j == r.len() {
                        assert(d.contains(r[i]));
                        let k = choose|k: int| 0 <= k < d.len() && d[k] == r[i];
                        assert(s[k] == r[i]);
                        assert(s[s.len() - 1] == s.last());
                    }
                }
            }
        }
        if !s.contains(h) {
            assert(!d.contains(h)) by {
                if d.contains(h) {
                    let k = choose|k: int| 0 <= k < d.len() && d[k] == h;
                    assert(s[k] == h);
                }
            }
            assert(s.last() != h) by {
                assert(s[s.len() - 1] == s.last());
            }
            assert(s == d.push(s.last()));
        }
    }
}

/// `v` without the occurrences of `h`, the rest in order.
fn without_handle(v: &Vec<Handle>, h: Handle) -> (r: Vec<Handle>)
    ensures
        r@ == without(v@, h),
{
    let mut r: Vec<Handle> = Vec::new();
    let mut i: usize = 0;
    while i < v.len()
        invariant
            i <= v.len(),
            r@ == without(v@.subrange(0, i as int), h),
        decreases v.len() - i,
    {
        assert(v@.subrange(0, i as int + 1).drop_last() == v@.subrange(0, i as int));
        assert(v@.subrange(0, i as int + 1).last() == v[i as int]);
        if v[i] != h {
            r.push(v[i]);
        }
        i = i + 1;
    }
    assert(v@.subrange(0, v.len() as int) == v@);
    r
}

/// Which texts are drawn with which font: one batch per font in use, and an
/// index from each text to its font, kept in step as texts come and go.
#[derive(Debug)]
pub struct TextBatches {
    batches: HashMap<u64, TextBatch>,
    text_to_font: HashMap<u64, u64>,
}

impl TextBatches {
    /// The batch of each font in use.
    pub closed spec fn batch_map(&self) -> Map<u64, TextBatch> {
        self.batches@
    }

    /// The font each text is filed under, by text key.
    pub closed spec fn owners(&self) -> Map<u64, u64> {
        self.text_to_font@
    }

    /// The batches and the index agree.
    pub open spec fn wf(&self) -> bool {
        registry_wf(handles_of(self.batch_map()), self.owners())
    }

    /// No batch and no text.
    pub fn new() -> (r: TextBatches)
        ensures
            r.wf(),
            r.batch_map() == Map::<u64, TextBatch>::empty(),
            r.owners() == Map::<u64, u64>::empty(),
    {
        let r = TextBatches { batches: HashMap::new(), text_to_font: HashMap::new() };
        assert(handles_of(r.batch_map()) == Map::<u64, Seq<Handle>>::empty());
        r
    }

    /// The batches, keyed by font, for drawing.
    pub fn batches(&self) -> (r: &HashMap<u64, TextBatch>)
        ensures
            r@ == self.batch_map(),
    {
        &self.batches
    }

    /// The batch of `font`, if one is in use.
    pub fn batch(&self, font: u64) -> (r: Option<&TextBatch>)
        ensures
            match r {
                Some(b) => self.batch_map().contains_key(font) && *b == self.batch_map()[font],
                None => !self.batch_map().contains_key(font),
            },
    {
        self.batches.get(&font)
    }

    /// Whether the text `handle` is filed under some font.
    pub fn contains_text(&self, handle: Handle) -> (b: bool)
        ensures
            b == self.owners().contains_key(text_key(handle)),
    {
        let key = handle.key();
        assert(key == text_key(handle));
        self.text_to_font.contains_key(&key)
    }

    /// The font key a text with font handle `font` is batched under.
    pub fn font_key(font: Handle) -> (k: u64)
        ensures
            k == font.index,
    {
        font.index as u64
    }

    /// File a new text under its font and append it to that font's batch,
    /// making the batch if the font had none; the batch must be rebuilt.
    /// Returns whether a batch was made.
    pub fn add_text(&mut self, handle: Handle, font: Handle) -> (created: bool)
        requires
            old(self).wf(),
            !old(self).owners().contains_key(text_key(handle)),
        ensures
            final(self).wf(),
            created == !old(self).batch_map().contains_key(font.index as u64),
            handles_of(final(self).batch_map()) == with_text(
                handles_of(old(self).batch_map()),
                handle,
                font.index as u64,
            ),
            final(self).owners() == old(self).owners().insert(text_key(handle), font.index as u64),
            final(self).batch_map()[font.index as u64].needs_rebuild,
            final(self).batch_map()[font.index as u64].total_glyphs == (if created {
                0
            } else {
                old(self).batch_map()[font.index as u64].total_glyphs
            }),
            final(self).batch_map().remove(font.index as u64) == old(self).batch_map().remove(
                font.index as u64,
            ),
    {
        let ghost fonts0 = handles_of(self.batches@);
        let ghost owners0 = self.text_to_font@;
        let fk = TextBatches::font_key(font);
        let key = handle.key();
        assert(key == text_key(handle));
        let removed = self.batches.remove(&fk);
        let created = removed.is_none();
        let mut batch = match removed {
            Some(b) => b,
            None => TextBatch::new(),
        };
        batch.handles.push(handle);
        batch.needs_rebuild = true;
        self.batches.insert(fk, batch);
        self.text_to_font.insert(key, fk);
        proof {
            let fonts1 = handles_of(self.batches@);
            let owners1 = self.text_to_font@;
            assert(fonts1 == with_text(fonts0, handle, fk));
            assert forall|f: u64, i: int|
                fonts0.contains_key(f) && 0 <= i < fonts0[f].len() implies fonts0[f][i]
                != handle by {
                assert(owners0.contains_key(text_key(fonts0[f][i])));
            }
            assert(batches_nonempty(fonts1));
            assert(batches_distinct(fonts1)) by {
                assert forall|f: u64| #[trigger] fonts1.contains_key(f) implies distinct_handles(
                    fonts1[f],
                ) by {
                    if f == fk && fonts0.contains_key(fk) {
                        assert(distinct_handles(fonts0[fk]));
                        assert forall|i: int, j: int|
                            0 <= i < j < fonts1[f].len() implies fonts1[f][i] != fonts1[f][j] by {
                            if j == fonts0[fk].len() {
                                assert(fonts0[fk][i] != handle);
                            } else {
                                assert(fonts1[f][i] == fonts0[fk][i]);
                                assert(fonts1[f][j] == fonts0[fk][j]);
                            }
                        }
                    }
                }
            }
            assert(batched_texts_filed(fonts1, owners1)) by {
                assert forall|f: u64, i: int|
                    fonts1.contains_key(f) && 0 <= i < fonts1[f].len() implies owners1.contains_key(
                    text_key(#[trigger] fonts1[f][i]),
                ) && owners1[text_key(fonts1[f][i])] == f by {
                    if f == fk && i == fonts1[f].len() - 1 {
                        assert(fonts1[f][i] == handle);
                    } else {
                        assert(fonts1[f][i] == fonts0[f][i]);
                        assert(owners0.contains_key(text_key(fonts0[f][i])));
                        assert(text_key(fonts0[f][i]) != key);
                    }
                }
            }
            assert(filed_texts_batched(fonts1, owners1)) by {
                assert forall|t: u64| #[trigger] owners1.contains_key(t) implies fonts1.contains_key(
                    owners1[t],
                ) && exists|i: int|
                    0 <= i < fonts1[owners1[t]].len() && text_key(
                        #[trigger] fonts1[owners1[t]][i],
                    ) == t by {
                    if t == key {
                        let i = fonts1[fk].len() - 1;
                        assert(fonts1[fk][i] == handle);
                    } else {
                        let f = owners0[t];
                        assert(fonts0.contains_key(f));
                        let i = choose|i: int|
                            0 <= i < fonts0[f].len() && text_key(#[trigger] fonts0[f][i]) == t;
                        assert(fonts1[f][i] == fonts0[f][i]);
                    }
                }
            }
            assert(self.batches@.remove(fk) == old(self).batches@.remove(fk));
        }
        created
    }

    /// Take a text out of its batch and out of the index; the batch must be
    /// rebuilt, and is dropped once it holds no text. Returns the font whose
    /// batch was dropped, if one was.
    pub fn remove_text(&mut self, handle: Handle) -> (dropped: Option<u64>)
        requires
            old(self).wf(),
        ensures
            final(self).wf(),
            handles_of(final(self).batch_map()) == without_text(
                handles_of(old(self).batch_map()),
                old(self).owners(),
                handle,
            ),
            final(self).owners() == old(self).owners().remove(text_key(handle)),
            match dropped {
                Some(f) => old(self).owners().contains_key(text_key(handle)) && f == old(self).owners()[text_key(handle)] && !final(self).batch_map().contains_key(f),
                None => !old(self).owners().contains_key(text_key(handle)) || final(self).batch_map().contains_key(old(self).owners()[text_key(handle)]),
            },
            old(self).owners().contains_key(text_key(handle)) && final(self).batch_map().contains_key(
                old(self).owners()[text_key(handle)],
            ) ==> final(self).batch_map()[old(self).owners()[text_key(handle)]].needs_rebuild,
            forall|f: u64|
                !(old(self).owners().contains_key(text_key(handle)) && f == old(self).owners()[text_key(handle)]) ==> (#[trigger] final(self).batch_map().contains_key(f)
                    <==> old(self).batch_map().contains_key(f)) && (old(self).batch_map().contains_key(f) ==> final(self).batch_map()[f] == old(self).batch_map()[f]),
    {
        let ghost fonts0 = handles_of(self.batches@);
        let ghost owners0 = self.text_to_font@;
        let key = handle.key();
        assert(key == text_key(handle));
        match self.text_to_font.remove(&key) {
            Some(fk) => {
                assert(fonts0.contains_key(fk));
                match self.batches.remove(&fk) {
                    Some(mut batch) => {
                        assert(batch.handles@ == fonts0[fk]);
                        let kept = without_handle(&batch.handles, handle);
                        batch.handles = kept;
                        batch.needs_rebuild = true;
                        if batch.handles.len() == 0 {
                            proof {
                                assert(handles_of(self.batches@) =~= fonts0.remove(fk));
                                self.lemma_after_removal(fonts0, owners0, handle, fk);
                            }
                            return Some(fk);
                        }
                        self.batches.insert(fk, batch);
                        proof {
                            assert(handles_of(self.batches@) =~= fonts0.insert(
                                fk,
                                without(fonts0[fk], handle),
                            ));
                            self.lemma_after_removal(fonts0, owners0, handle, fk);
                        }
                        None
                    },
                    None => { None },
                }
            },
            None => {
                assert(self.batches@ == old(self).batches@);
                assert(self.text_to_font@ == owners0.remove(key));
                None
            },
        }
    }

    proof fn lemma_after_removal(
        &self,
        fonts0: Map<u64, Seq<Handle>>,
        owners0: Map<u64, u64>,
        handle: Handle,
        fk: u64,
    )
        requires
            registry_wf(fonts0, owners0),
            owners0.contains_key(text_key(handle)),
            owners0[text_key(handle)] == fk,
            self.text_to_font@ == owners0.remove(text_key(handle)),
            handles_of(self.batches@) == without_text(fonts0, owners0, handle),
        ensures
            self.wf(),
    {
        let k = text_key(handle);
        let fonts1 = handles_of(self.batches@);
        let owners1 = self.text_to_font@;
        lemma_without(fonts0[fk], handle);
        assert(batches_nonempty(fonts1));
        assert(batches_distinct(fonts1));
        assert(batched_texts_filed(fonts1, owners1)) by {
            assert forall|f: u64, i: int|
                fonts1.contains_key(f) && 0 <= i < fonts1[f].len() implies owners1.contains_key(
                text_key(#[trigger] fonts1[f][i]),
            ) && owners1[text_key(fonts1[f][i])] == f by {
                let x = fonts1[f][i];
                if f == fk {
                    assert(fonts0[fk].contains(x));
                    let j = choose|j: int| 0 <= j < fonts0[fk].len() && fonts0[fk][j] == x;
                    assert(owners0.contains_key(text_key(fonts0[fk][j])));
                    assert(x != handle);
                    lemma_key_orders_lexicographically(x, handle);
                } else {
                    assert(fonts1[f][i] == fonts0[f][i]);
                    assert(owners0.contains_key(text_key(fonts0[f][i])));
                    assert(owners0[text_key(fonts0[f][i])] == f);
                }
            }
        }
        assert(filed_texts_batched(fonts1, owners1)) by {
            assert forall|t: u64| #[trigger] owners1.contains_key(t) implies fonts1.contains_key(
                owners1[t],
            ) && exists|i: int|
                0 <= i < fonts1[owners1[t]].len() && text_key(#[trigger] fonts1[owners1[t]][i])
                    == t by {
                let f = owners0[t];
                assert(fonts0.contains_key(f));
                let i = choose|i: int|
                    0 <= i < fonts0[f].len() && text_key(#[trigger] fonts0[f][i]) == t;
                let x = fonts0[f][i];
                if f == fk {
                    assert(x != handle);
                    assert(fonts0[fk].contains(x));
                    assert(without(fonts0[fk], handle).contains(x));
                    let j = choose|j: int|
                        0 <= j < without(fonts0[fk], handle).len() && without(fonts0[fk], handle)[j]
                            == x;
                    assert(fonts1.contains_key(fk));
                    assert(fonts1[fk][j] == x);
                } else {
                    assert(fonts1[f][i] == x);
                }
            }
        }
    }

    /// Note that a text is about to change: the batch it is in must be
    /// rebuilt. Returns whether the text is filed.
    pub fn mark_changed(&mut self, handle: Handle) -> (known: bool)
        requires
            old(self).wf(),
        ensures
            final(self).wf(),
            known == old(self).owners().contains_key(text_key(handle)),
            final(self).owners() == old(self).owners(),
            handles_of(final(self).batch_map()) == handles_of(old(self).batch_map()),
            known ==> final(self).batch_map()[old(self).owners()[text_key(handle)]].needs_rebuild,
            forall|f: u64|
                !(known && f == old(self).owners()[text_key(handle)]) ==> (
                #[trigger] final(self).batch_map().contains_key(f) <==> old(self).batch_map().contains_key(f)) && (old(self).batch_map().contains_key(f)
                    ==> final(self).batch_map()[f] == old(self).batch_map()[f]),
    {
        let key = handle.key();
        assert(key == text_key(handle));
        match self.text_to_font.get(&key) {
            Some(fk) => {
                let fk = *fk;
                match self.batches.remove(&fk) {
                    Some(mut batch) => {
                        batch.needs_rebuild = true;
                        self.batches.insert(fk, batch);
                        assert(handles_of(self.batches@) == handles_of(old(self).batches@));
                    },
                    None => {},
                }
                true
            },
            None => false,
        }
    }

    /// Record that the batch of `font` was rebuilt with `total_glyphs`
    /// glyph instances. Returns whether the font has a batch.
    pub fn finish_rebuild(&mut self, font: u64, total_glyphs: usize) -> (found: bool)
        requires
            old(self).wf(),
        ensures
            final(self).wf(),
            found == old(self).batch_map().contains_key(font),
            final(self).owners() == old(self).owners(),
            handles_of(final(self).batch_map()) == handles_of(old(self).batch_map()),
            found ==> !final(self).batch_map()[font].needs_rebuild
                && final(self).batch_map()[font].total_glyphs == total_glyphs,
            final(self).batch_map().remove(font) == old(self).batch_map().remove(font),
    {
        match self.batches.remove(&font) {
            Some(mut batch) => {
                batch.needs_rebuild = false;
                batch.total_glyphs = total_glyphs;
                self.batches.insert(font, batch);
                assert(handles_of(self.batches@) == handles_of(old(self).batches@));
                assert(self.batches@.remove(font) == old(self).batches@.remove(font));
                true
            },
            None => {
                assert(self.batches@ =~= old(self).batches@);
                false
            },
        }
    }
}

/// A text sits in exactly one batch, the one of the font it is filed
/// under, and in no batch when it is not filed.
pub proof fn lemma_text_in_one_batch(
    fonts: Map<u64, Seq<Handle>>,
    owners: Map<u64, u64>,
    h: Handle,
    f: u64,
)
    requires
        registry_wf(fonts, owners),
    ensures
        (fonts.contains_key(f) && fonts[f].contains(h)) <==> (owners.contains_key(text_key(h))
            && owners[text_key(h)] == f),
{
    let k = text_key(h);
    if fonts.contains_key(f) && fonts[f].contains(h) {
        let i = choose|i: int| 0 <= i < fonts[f].len() && fonts[f][i] == h;
        assert(owners.contains_key(text_key(fonts[f][i])));
    }
    if owners.contains_key(k) && owners[k] == f {
        assert(fonts.contains_key(owners[k]));
        let i = choose|i: int| 0 <= i < fonts[f].len() && text_key(#[trigger] fonts[f][i]) == k;
        lemma_key_orders_lexicographically(fonts[f][i], h);
        assert(fonts[f][i] == h);
    }
}

/// Removing a text that was just added gives back the batches and the index
/// as they were: the text leaves its font's batch, and a batch made for it
/// is dropped again.
pub proof fn lemma_remove_undoes_add(
    fonts: Map<u64, Seq<Handle>>,
    owners: Map<u64, u64>,
    h: Handle,
    f: u64,
)
    requires
        registry_wf(fonts, owners),
        !owners.contains_key(text_key(h)),
    ensures
        without_text(with_text(fonts, h, f), owners.insert(text_key(h), f), h) == fonts,
        owners.insert(text_key(h), f).remove(text_key(h)) == owners,
{
    let k = text_key(h);
    let fonts1 = with_text(fonts, h, f);
    let owners1 = owners.insert(k, f);
    if fonts.contains_key(f) {
        let s = fonts[f];
        assert(!s.contains(h)) by {
            if s.contains(h) {
                let i = choose|i: int| 0 <= i < s.len() && s[i] == h;
                assert(owners.contains_key(text_key(fonts[f][i])));
            }
        }
        lemma_without(s, h);
        assert(s.push(h).drop_last() == s);
        assert(without(s.push(h), h) == s);
        assert(s.len() > 0);
        assert(fonts1.insert(f, s) == fonts);
    } else {
        let s: Seq<Handle> = seq![h];
        assert(s.drop_last() == Seq::<Handle>::empty());
        assert(without(Seq::<Handle>::empty(), h) == Seq::<Handle>::empty());
        assert(s.last() == h);
        assert(without(s, h) == Seq::<Handle>::empty());
        assert(fonts1.remove(f) == fonts);
    }
    assert(owners1.remove(k) == owners);
}

} // verus!
