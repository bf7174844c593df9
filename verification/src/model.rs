//! Face models: what is enrolled for a user, its on-disk form, and the rules for
//! loading and storing it.

use vstd::prelude::*;
use vstd::string::*;
use vstd::utf8::*;

use crate::encoding::{
    encoding_from_hex, encoding_to_hex, hex_words, law_hex_roundtrip, words_hex, Encoding,
};
use crate::error::{ErrorView, FaceAuthError};
use crate::text::{
    concat2, concat3, contains, decimal, decimal_text, law_contains_part, law_parse_decimal,
    starts_with,
};

verus! {

// ---------------------------------------------------------------------------
// Cameras
// ---------------------------------------------------------------------------

/// A stable identifier for a camera device.
///
/// Device indices change as devices come and go, so the names of udev's stable
/// links are kept as well. The index is the last resort for a camera without them.
#[derive(Debug, PartialEq)]
pub struct CameraId {
    /// Link name in `/dev/v4l/by-id/`: stable across port changes, absent for a
    /// camera without a serial number.
    pub by_id: Option<String>,
    /// Link name in `/dev/v4l/by-path/`: stable while the camera stays on its port.
    pub by_path: Option<String>,
    /// `N` in `/dev/videoN`.
    pub index: u32,
}

/// A [`CameraId`] as a mathematical value.
#[verifier::ext_equal]
pub struct CameraIdView {
    pub by_id: Option<Seq<char>>,
    pub by_path: Option<Seq<char>>,
    pub index: u32,
}

impl View for CameraId {
    type V = CameraIdView;

    open spec fn view(&self) -> CameraIdView {
        CameraIdView {
            by_id: self.by_id.deep_view(),
            by_path: self.by_path.deep_view(),
            index: self.index,
        }
    }
}

/// A copy of an optional text.
pub fn copy_text(s: &Option<String>) -> (r: Option<String>)
    ensures
        r == *s,
{
    match s {
        Some(t) => Some(t.clone()),
        None => None,
    }
}

impl Clone for CameraId {
    fn clone(&self) -> (r: CameraId)
        ensures
            r == *self,
    {
        CameraId {
            by_id: copy_text(&self.by_id),
            by_path: copy_text(&self.by_path),
            index: self.index,
        }
    }
}

// ---------------------------------------------------------------------------
// Models
// ---------------------------------------------------------------------------

/// The sum of `sizes`.
pub open spec fn total(sizes: Seq<usize>) -> nat
    decreases sizes.len(),
{
    if sizes.len() == 0 {
        0
    } else {
        total(sizes.drop_last()) + sizes.last() as nat
    }
}

/// `items` cut into runs of the given sizes.
pub open spec fn split<A>(items: Seq<A>, sizes: Seq<usize>) -> Seq<Seq<A>>
    decreases sizes.len(),
{
    if sizes.len() == 0 {
        Seq::empty()
    } else {
        let at = items.len() - sizes.last();
        split(items.take(at), sizes.drop_last()).push(items.skip(at))
    }
}

/// The items of all `runs`, in order.
pub open spec fn concatenated<A>(runs: Seq<Seq<A>>) -> Seq<A>
    decreases runs.len(),
{
    if runs.len() == 0 {
        Seq::empty()
    } else {
        concatenated(runs.drop_last()) + runs.last()
    }
}

/// Encodings by the bit patterns they are made of.
pub open spec fn patterns(encodings: Seq<Encoding>) -> Seq<Seq<u32>> {
    encodings.map_values(|e: Encoding| e@)
}

/// What is enrolled for one user.
#[derive(Debug)]
pub struct FaceModel {
    pub version: u32,
    pub username: String,
    /// The camera used in enrollment; authentication uses the same one.
    pub camera: CameraId,
    /// The face descriptors of all enrollment batches, in order.
    pub encodings: Vec<Encoding>,
    /// How many of the descriptors each enrollment batch holds.
    pub batches: Vec<usize>,
}

/// A [`FaceModel`] as a mathematical value: its enrollment batches, each a
/// sequence of encodings.
#[verifier::ext_equal]
pub struct ModelView {
    pub version: u32,
    pub username: Seq<char>,
    pub camera: CameraIdView,
    pub batches: Seq<Seq<Seq<u32>>>,
}

impl View for FaceModel {
    type V = ModelView;

    open spec fn view(&self) -> ModelView {
        ModelView {
            version: self.version,
            username: self.username@,
            camera: self.camera@,
            batches: split(patterns(self.encodings@), self.batches@),
        }
    }
}

impl ModelView {
    /// The model of a user with nothing enrolled yet.
    pub open spec fn fresh(username: Seq<char>, camera: CameraIdView) -> ModelView {
        ModelView { version: 1, username, camera, batches: Seq::empty() }
    }

    /// The model with one more batch, at the end.
    pub open spec fn with_batch(self, batch: Seq<Seq<u32>>) -> ModelView {
        ModelView { batches: self.batches.push(batch), ..self }
    }

    /// The model without batch `i`.
    pub open spec fn without_batch(self, i: int) -> ModelView {
        ModelView { batches: self.batches.remove(i), ..self }
    }

    /// Every encoding has 128 numbers.
    pub open spec fn valid(self) -> bool {
        forall|b: int, i: int|
            0 <= b < self.batches.len() && 0 <= i < self.batches[b].len()
                ==> (#[trigger] self.batches[b][i]).len() == 128
    }
}

impl FaceModel {
    /// The batches cover the encodings.
    pub open spec fn wf(&self) -> bool {
        total(self.batches@) == self.encodings@.len()
    }

    /// An empty model for `username`, recorded with `camera`.
    pub fn new(username: &str, camera: CameraId) -> (r: FaceModel)
        ensures
            r.wf(),
            r.version == 1,
            r.username@ == username@,
            r.camera == camera,
            r.encodings@.len() == 0,
            r@ == ModelView::fresh(username@, camera@),
    {
        let r = FaceModel {
            version: 1,
            username: String::from_str(username),
            camera,
            encodings: Vec::new(),
            batches: Vec::new(),
        };
        proof {
            assert(r@.batches =~= Seq::empty());
        }
        r
    }

    /// Appends one encoding, as an enrollment batch of its own.
    pub fn add_encoding(&mut self, encoding: Encoding)
        requires
            old(self).wf(),
        ensures
            final(self).wf(),
            final(self).encodings@ == old(self).encodings@.push(encoding),
            final(self)@ == old(self)@.with_batch(seq![encoding@]),
    {
        self.encodings.push(encoding);
        self.batches.push(1);
        proof {
            let encs = old(self).encodings@;
            lemma_split_push(patterns(encs), old(self).batches@, seq![encoding@], 1);
            assert(patterns(self.encodings@) =~= patterns(encs) + seq![encoding@]);
            assert(self.batches@.drop_last() =~= old(self).batches@);
        }
    }

    /// Appends the encodings of one enrollment run as one batch.
    pub fn add_batch(&mut self, batch: &Vec<Encoding>)
        requires
            old(self).wf(),
        ensures
            final(self).wf(),
            final(self).encodings@ == old(self).encodings@ + batch@,
            final(self)@ == old(self)@.with_batch(patterns(batch@)),
    {
        let mut i: usize = 0;
        let ghost encs = self.encodings@;
        while i < batch.len()
            invariant
                i <= batch.len(),
                self.encodings@ == encs + batch@.take(i as int),
                self.batches@ == old(self).batches@,
                self.version == old(self).version,
                self.username == old(self).username,
                self.camera == old(self).camera,
            decreases batch.len() - i,
        {
            self.encodings.push(batch[i]);
            proof {
                assert(encs + batch@.take(i + 1) =~= (encs + batch@.take(i as int)).push(
                    batch@[i as int],
                ));
            }
            i = i + 1;
        }
        self.batches.push(batch.len());
        proof {
            assert(batch@.take(batch@.len() as int) =~= batch@);
            lemma_split_push(patterns(encs), old(self).batches@, patterns(batch@), batch.len());
            assert(patterns(self.encodings@) =~= patterns(encs) + patterns(batch@));
            assert(self.batches@.drop_last() =~= old(self).batches@);
        }
    }

    /// How many enrollment batches there are.
    pub fn batch_count(&self) -> (r: usize)
        requires
            self.wf(),
        ensures
            r == self@.batches.len(),
    {
        proof {
            lemma_split_len(patterns(self.encodings@), self.batches@);
        }
        self.batches.len()
    }

    /// Removes one enrollment batch, and no other.
    pub fn remove_batch(&mut self, index: usize)
        requires
            old(self).wf(),
            index < old(self)@.batches.len(),
        ensures
            final(self).wf(),
            final(self)@ == old(self)@.without_batch(index as int),
    {
        let ghost encs = self.encodings@;
        let ghost sizes = self.batches@;
        proof {
            lemma_split_len(patterns(encs), sizes);
        }
        let mut start: usize = 0;
        let mut b: usize = 0;
        while b < index
            invariant
                b <= index < sizes.len(),
                sizes == self.batches@,
                encs == self.encodings@,
                total(sizes) == encs.len(),
                start == total(sizes.take(b as int)),
                self.version == old(self).version,
                self.username == old(self).username,
                self.camera == old(self).camera,
            decreases index - b,
        {
            proof {
                assert(sizes.take(b + 1).drop_last() =~= sizes.take(b as int));
                lemma_total_take(sizes, b + 1);
                assert(encs.len() == self.encodings.len());
            }
            start = start + self.batches[b];
            b = b + 1;
        }
        let size: usize = self.batches[index];
        proof {
            assert(sizes.take(index + 1).drop_last() =~= sizes.take(index as int));
            lemma_total_take(sizes, index + 1);
            assert(encs.skip(start as int) =~= encs.skip(start + 0));
            assert(encs =~= encs.take(start as int) + encs.skip(start as int));
        }
        let mut k: usize = 0;
        while k < size
            invariant
                k <= size,
                start + size <= encs.len(),
                sizes == self.batches@,
                self.encodings@ == encs.take(start as int) + encs.skip(start + k),
                self.version == old(self).version,
                self.username == old(self).username,
                self.camera == old(self).camera,
            decreases size - k,
        {
            let _gone: Encoding = self.encodings.remove(start);
            proof {
                assert((encs.take(start as int) + encs.skip(start + k)).remove(start as int)
                    =~= encs.take(start as int) + encs.skip(start + k + 1));
            }
            k = k + 1;
        }
        let _size: usize = self.batches.remove(index);
        proof {
            lemma_split_remove(patterns(encs), sizes, index as int);
            assert(patterns(self.encodings@) =~= patterns(encs).take(start as int) + patterns(
                encs,
            ).skip(start + size));
        }
    }
}

proof fn lemma_split_len<A>(items: Seq<A>, sizes: Seq<usize>)
    ensures
        split(items, sizes).len() == sizes.len(),
    decreases sizes.len(),
{
    if sizes.len() > 0 {
        lemma_split_len(items.take(items.len() - sizes.last()), sizes.drop_last());
    }
}

proof fn lemma_total_take(sizes: Seq<usize>, n: int)
    requires
        0 <= n <= sizes.len(),
    ensures
        total(sizes.take(n)) <= total(sizes),
    decreases sizes.len(),
{
    if n < sizes.len() {
        lemma_total_take(sizes.drop_last(), n);
        assert(sizes.drop_last().take(n) =~= sizes.take(n));
    } else {
        assert(sizes.take(n) =~= sizes);
    }
}

proof fn lemma_split_push<A>(items: Seq<A>, sizes: Seq<usize>, more: Seq<A>, size: usize)
    requires
        more.len() == size,
    ensures
        split(items + more, sizes.push(size)) == split(items, sizes).push(more),
        total(sizes.push(size)) == total(sizes) + size,
{
    let all = items + more;
    assert(sizes.push(size).drop_last() =~= sizes);
    assert(all.take(all.len() - size) =~= items);
    assert(all.skip(all.len() - size) =~= more);
}

proof fn lemma_split_remove<A>(items: Seq<A>, sizes: Seq<usize>, i: int)
    requires
        0 <= i < sizes.len(),
        total(sizes) == items.len(),
    ensures
        ({
            let a = total(sizes.take(i)) as int;
            let b = a + sizes[i];
            &&& b <= items.len()
            &&& split(items.take(a) + items.skip(b), sizes.remove(i)) == split(items, sizes).remove(
                i,
            )
            &&& total(sizes.remove(i)) == total(sizes) - sizes[i]
        }),
    decreases sizes.len(),
{
    let a = total(sizes.take(i)) as int;
    let b = a + sizes[i];
    let n = sizes.len() - 1;
    let last = sizes.last();
    let at = items.len() - last;
    let front = sizes.drop_last();
    let kept = items.take(a) + items.skip(b);
    lemma_split_len(items.take(at), front);
    if i == n {
        assert(sizes.take(i) =~= front);
        assert(sizes.remove(i) =~= front);
        assert(kept =~= items.take(at));
        assert(split(items, sizes).remove(i) =~= split(items.take(at), front));
    } else {
        assert(front.take(i) =~= sizes.take(i));
        lemma_split_remove(items.take(at), front, i);
        assert(sizes.remove(i).drop_last() =~= front.remove(i));
        assert(sizes.remove(i).last() == last);
        let fewer = kept.len() - last;
        assert(kept.take(fewer) =~= items.take(at).take(a) + items.take(at).skip(b));
        assert(kept.skip(fewer) =~= items.skip(at));
        assert(split(items, sizes).remove(i) =~= split(items.take(at), front).remove(i).push(
            items.skip(at),
        ));
    }
}

proof fn lemma_split_concatenated<A>(items: Seq<A>, sizes: Seq<usize>)
    requires
        total(sizes) == items.len(),
    ensures
        concatenated(split(items, sizes)) == items,
    decreases sizes.len(),
{
    if sizes.len() > 0 {
        let at = items.len() - sizes.last();
        lemma_split_concatenated(items.take(at), sizes.drop_last());
        assert(split(items, sizes).drop_last() =~= split(items.take(at), sizes.drop_last()));
        assert(items.take(at) + items.skip(at) =~= items);
    } else {
        assert(items =~= Seq::empty());
    }
}

/// The encodings of a model are those of its batches, one batch after another.
pub proof fn law_encodings_are_batches(m: FaceModel)
    requires
        m.wf(),
    ensures
        patterns(m.encodings@) == concatenated(m@.batches),
{
    lemma_split_concatenated(patterns(m.encodings@), m.batches@);
}

/// Removing the batch that was enrolled last undoes the enrollment.
pub proof fn law_remove_undoes_add(m: ModelView, batch: Seq<Seq<u32>>)
    ensures
        m.with_batch(batch).without_batch(m.batches.len() as int) == m,
{
    assert(m.batches.push(batch).remove(m.batches.len() as int) =~= m.batches);
}

// ---------------------------------------------------------------------------
// The on-disk form
// ---------------------------------------------------------------------------

/// One enrollment batch as a model file holds it.
#[derive(Debug)]
pub enum DiskEntry {
    /// A batch of one encoding: its hexadecimal text.
    One(String),
    /// Any other batch: the texts of its encodings.
    Batch(Vec<String>),
}

/// A [`DiskEntry`] as a mathematical value.
pub enum EntryView {
    One(Seq<char>),
    Batch(Seq<Seq<char>>),
}

impl View for DiskEntry {
    type V = EntryView;

    open spec fn view(&self) -> EntryView {
        match self {
            DiskEntry::One(t) => EntryView::One(t@),
            DiskEntry::Batch(ts) => EntryView::Batch(ts.deep_view()),
        }
    }
}

impl DeepView for DiskEntry {
    type V = EntryView;

    open spec fn deep_view(&self) -> EntryView {
        self@
    }
}

/// A model as its file holds it, each encoding as hexadecimal text.
#[derive(Debug)]
pub struct FaceModelDisk {
    pub version: u32,
    pub username: String,
    pub camera: CameraId,
    pub encodings: Vec<DiskEntry>,
}

/// A [`FaceModelDisk`] as a mathematical value.
#[verifier::ext_equal]
pub struct DiskView {
    pub version: u32,
    pub username: Seq<char>,
    pub camera: CameraIdView,
    pub encodings: Seq<EntryView>,
}

impl View for FaceModelDisk {
    type V = DiskView;

    open spec fn view(&self) -> DiskView {
        DiskView {
            version: self.version,
            username: self.username@,
            camera: self.camera@,
            encodings: self.encodings.deep_view(),
        }
    }
}

/// The hexadecimal texts of a batch.
pub open spec fn batch_texts(batch: Seq<Seq<u32>>) -> Seq<Seq<char>> {
    batch.map_values(|e: Seq<u32>| words_hex(e))
}

/// A batch as a file holds it.
pub open spec fn batch_entry(batch: Seq<Seq<u32>>) -> EntryView {
    if batch.len() == 1 {
        EntryView::One(words_hex(batch[0]))
    } else {
        EntryView::Batch(batch_texts(batch))
    }
}

/// A model as a file holds it.
pub open spec fn disk_form(m: ModelView) -> DiskView {
    DiskView {
        version: m.version,
        username: m.username,
        camera: m.camera,
        encodings: m.batches.map_values(|b: Seq<Seq<u32>>| batch_entry(b)),
    }
}

/// The encodings that `texts` stand for, or what is wrong with the first bad one.
pub open spec fn decode_texts(texts: Seq<Seq<char>>) -> Result<Seq<Seq<u32>>, Seq<char>>
    decreases texts.len(),
{
    if texts.len() == 0 {
        Ok(Seq::empty())
    } else {
        match decode_texts(texts.drop_last()) {
            Err(m) => Err(m),
            Ok(done) => match hex_words(encode_utf8(texts.last())) {
                Err(m) => Err(m),
                Ok(words) => Ok(done.push(words)),
            },
        }
    }
}

/// The batch that an entry stands for, or what is wrong with it.
pub open spec fn decode_entry(e: EntryView) -> Result<Seq<Seq<u32>>, Seq<char>> {
    match e {
        EntryView::One(t) => decode_texts(seq![t]),
        EntryView::Batch(ts) => decode_texts(ts),
    }
}

/// The batches that `entries` stand for, or what is wrong with the first bad one.
pub open spec fn decode_entries(entries: Seq<EntryView>) -> Result<
    Seq<Seq<Seq<u32>>>,
    Seq<char>,
>
    decreases entries.len(),
{
    if entries.len() == 0 {
        Ok(Seq::empty())
    } else {
        match decode_entries(entries.drop_last()) {
            Err(m) => Err(m),
            Ok(done) => match decode_entry(entries.last()) {
                Err(m) => Err(m),
                Ok(batch) => Ok(done.push(batch)),
            },
        }
    }
}

/// The model that the contents of a file stand for.
pub open spec fn decode_model(d: DiskView) -> Result<ModelView, ErrorView> {
    match decode_entries(d.encodings) {
        Err(m) => Err(ErrorView::Dlib(m)),
        Ok(batches) => Ok(
            ModelView { version: d.version, username: d.username, camera: d.camera, batches },
        ),
    }
}

proof fn lemma_decode_batch_texts(batch: Seq<Seq<u32>>)
    requires
        forall|i: int| 0 <= i < batch.len() ==> (#[trigger] batch[i]).len() == 128,
    ensures
        decode_texts(batch_texts(batch)) == Ok::<Seq<Seq<u32>>, Seq<char>>(batch),
    decreases batch.len(),
{
    if batch.len() > 0 {
        let front = batch.drop_last();
        lemma_decode_batch_texts(front);
        assert(batch_texts(batch).drop_last() =~= batch_texts(front));
        assert(batch[batch.len() - 1].len() == 128);
        law_hex_roundtrip(batch.last());
        assert(front.push(batch.last()) =~= batch);
    } else {
        assert(batch =~= Seq::empty());
    }
}

proof fn lemma_decode_disk_form(m: ModelView)
    requires
        m.valid(),
    ensures
        decode_entries(disk_form(m).encodings) == Ok::<Seq<Seq<Seq<u32>>>, Seq<char>>(m.batches),
    decreases m.batches.len(),
{
    let entries = disk_form(m).encodings;
    if m.batches.len() > 0 {
        let front = ModelView { batches: m.batches.drop_last(), ..m };
        let last = m.batches.last();
        assert forall|b: int, i: int|
            0 <= b < front.batches.len() && 0 <= i < front.batches[b].len() implies (
        #[trigger] front.batches[b][i]).len() == 128 by {
            assert(m.batches[b][i].len() == 128);
        }
        lemma_decode_disk_form(front);
        assert(entries.drop_last() =~= disk_form(front).encodings);
        assert forall|i: int| 0 <= i < last.len() implies (#[trigger] last[i]).len() == 128 by {
            assert(m.batches[m.batches.len() - 1][i].len() == 128);
        }
        lemma_decode_batch_texts(last);
        if last.len() == 1 {
            assert(batch_texts(last) =~= seq![words_hex(last[0])]);
        }
        assert(front.batches.push(last) =~= m.batches);
    } else {
        assert(m.batches =~= Seq::empty());
    }
}

proof fn lemma_split_patterns_valid(encs: Seq<Encoding>, sizes: Seq<usize>)
    requires
        total(sizes) == encs.len(),
    ensures
        forall|b: int, i: int|
            0 <= b < split(patterns(encs), sizes).len() && 0 <= i < split(
                patterns(encs),
                sizes,
            )[b].len() ==> (#[trigger] split(patterns(encs), sizes)[b][i]).len() == 128,
    decreases sizes.len(),
{
    let runs = split(patterns(encs), sizes);
    lemma_split_len(patterns(encs), sizes);
    if sizes.len() > 0 {
        let at = encs.len() - sizes.last();
        lemma_split_patterns_valid(encs.take(at), sizes.drop_last());
        assert(patterns(encs.take(at)) =~= patterns(encs).take(at));
        let front = split(patterns(encs).take(at), sizes.drop_last());
        lemma_split_len(patterns(encs).take(at), sizes.drop_last());
        assert forall|b: int, i: int|
            0 <= b < runs.len() && 0 <= i < runs[b].len() implies (
        #[trigger] runs[b][i]).len() == 128 by {
            if b < front.len() {
                assert(runs[b] == front[b]);
                assert(front[b][i].len() == 128);
            } else {
                assert(runs[b][i] == encs[at + i]@);
            }
        }
    }
}

/// A model is read back from its file as it was written.
pub proof fn law_load_gives_back_save(m: FaceModel)
    requires
        m.wf(),
    ensures
        decode_model(disk_form(m@)) == Ok::<ModelView, ErrorView>(m@),
{
    lemma_split_patterns_valid(m.encodings@, m.batches@);
    lemma_decode_disk_form(m@);
}

/// The texts of the encodings `encodings[from..to]`.
fn hex_texts(encodings: &Vec<Encoding>, from: usize, to: usize) -> (r: Vec<String>)
    requires
        from <= to <= encodings.len(),
    ensures
        r.deep_view() == batch_texts(patterns(encodings@.subrange(from as int, to as int))),
{
    let mut out: Vec<String> = Vec::new();
    let mut i: usize = from;
    while i < to
        invariant
            from <= i <= to <= encodings.len(),
            out@.len() == i - from,
            forall|j: int| 0 <= j < out@.len() ==> (#[trigger] out@[j])@ == words_hex(
                encodings@[from + j]@,
            ),
        decreases to - i,
    {
        out.push(encoding_to_hex(&encodings[i]));
        i = i + 1;
    }
    proof {
        assert(out.deep_view() =~= batch_texts(
            patterns(encodings@.subrange(from as int, to as int)),
        ));
    }
    out
}

/// `model` as its file holds it.
pub fn model_to_disk(model: &FaceModel) -> (r: FaceModelDisk)
    requires
        model.wf(),
    ensures
        r@ == disk_form(model@),
{
    let mut entries: Vec<DiskEntry> = Vec::new();
    let mut b: usize = 0;
    let mut from: usize = 0;
    let ghost encs = model.encodings@;
    let ghost sizes = model.batches@;
    let ghost done: Seq<Seq<Seq<u32>>> = Seq::empty();
    proof {
        assert(sizes.take(0) =~= Seq::empty());
        assert(done =~= split(patterns(encs.take(0)), sizes.take(0)));
        assert(entries.deep_view() =~= done.map_values(|x: Seq<Seq<u32>>| batch_entry(x)));
    }
    while b < model.batches.len()
        invariant
            b <= model.batches.len(),
            model.wf(),
            encs == model.encodings@,
            sizes == model.batches@,
            from == total(sizes.take(b as int)),
            from <= encs.len(),
            done == split(patterns(encs.take(from as int)), sizes.take(b as int)),
            entries.deep_view() == done.map_values(|x: Seq<Seq<u32>>| batch_entry(x)),
        decreases model.batches.len() - b,
    {
        let size: usize = model.batches[b];
        proof {
            lemma_total_take(sizes, b + 1);
            assert(sizes.take(b + 1) =~= sizes.take(b as int).push(size));
            assert(sizes.take(b + 1).drop_last() =~= sizes.take(b as int));
            assert(encs.len() == model.encodings.len());
        }
        let to: usize = from + size;
        let ghost batch = patterns(encs.subrange(from as int, to as int));
        let ghost before = entries.deep_view();
        if size == 1 {
            entries.push(DiskEntry::One(encoding_to_hex(&model.encodings[from])));
            proof {
                assert(batch[0] == encs[from as int]@);
            }
        } else {
            entries.push(DiskEntry::Batch(hex_texts(&model.encodings, from, to)));
        }
        proof {
            assert(entries@.last()@ == batch_entry(batch));
            assert(entries.deep_view() =~= before.push(batch_entry(batch)));
            let next = done.push(batch);
            lemma_split_push(patterns(encs.take(from as int)), sizes.take(b as int), batch, size);
            assert(patterns(encs.take(to as int)) =~= patterns(encs.take(from as int)) + batch);
            assert(entries.deep_view() =~= next.map_values(|x: Seq<Seq<u32>>| batch_entry(x)));
            done = next;
        }
        from = to;
        b = b + 1;
    }
    proof {
        assert(sizes.take(b as int) =~= sizes);
        assert(encs.take(from as int) =~= encs);
    }
    FaceModelDisk {
        version: model.version,
        username: model.username.clone(),
        camera: model.camera.clone(),
        encodings: entries,
    }
}

proof fn lemma_decode_texts_error(texts: Seq<Seq<char>>, n: int)
    requires
        0 <= n <= texts.len(),
        decode_texts(texts.take(n)) is Err,
    ensures
        decode_texts(texts) == decode_texts(texts.take(n)),
    decreases texts.len(),
{
    if n < texts.len() {
        assert(texts.drop_last().take(n) =~= texts.take(n));
        lemma_decode_texts_error(texts.drop_last(), n);
    } else {
        assert(texts.take(n) =~= texts);
    }
}

proof fn lemma_decode_entries_error(entries: Seq<EntryView>, n: int)
    requires
        0 <= n <= entries.len(),
        decode_entries(entries.take(n)) is Err,
    ensures
        decode_entries(entries) == decode_entries(entries.take(n)),
    decreases entries.len(),
{
    if n < entries.len() {
        assert(entries.drop_last().take(n) =~= entries.take(n));
        lemma_decode_entries_error(entries.drop_last(), n);
    } else {
        assert(entries.take(n) =~= entries);
    }
}

/// The encodings that `texts` stand for, or what is wrong with the first bad one.
fn decode_batch(texts: &Vec<String>) -> (r: Result<Vec<Encoding>, String>)
    ensures
        match decode_texts(texts.deep_view()) {
            Ok(batch) => r matches Ok(encs) && patterns(encs@) == batch,
            Err(m) => r matches Err(t) && t@ == m,
        },
{
    let ghost all = texts.deep_view();
    let mut out: Vec<Encoding> = Vec::new();
    let mut i: usize = 0;
    proof {
        assert(all.take(0) =~= Seq::empty());
        assert(patterns(out@) =~= Seq::empty());
    }
    while i < texts.len()
        invariant
            i <= texts.len(),
            all == texts.deep_view(),
            decode_texts(all.take(i as int)) == Ok::<Seq<Seq<u32>>, Seq<char>>(patterns(out@)),
        decreases texts.len() - i,
    {
        proof {
            assert(all.take(i + 1).drop_last() =~= all.take(i as int));
            assert(all.take(i + 1).last() == texts@[i as int]@);
        }
        match encoding_from_hex(texts[i].as_str()) {
            Ok(enc) => {
                let ghost before = out@;
                out.push(enc);
                proof {
                    assert(patterns(out@) =~= patterns(before).push(enc@));
                }
            },
            Err(m) => {
                proof {
                    lemma_decode_texts_error(all, i + 1);
                }
                return Err(m);
            },
        }
        i = i + 1;
    }
    proof {
        assert(all.take(i as int) =~= all);
    }
    Ok(out)
}

/// The model that a parsed file stands for.
pub fn load_model_from_disk(disk: FaceModelDisk) -> (r: Result<FaceModel, FaceAuthError>)
    ensures
        match decode_model(disk@) {
            Ok(m) => r matches Ok(model) && model.wf() && model@ == m,
            Err(e) => r matches Err(err) && err@ == e,
        },
{
    let ghost all = disk.encodings.deep_view();
    let mut model: FaceModel = FaceModel {
        version: disk.version,
        username: disk.username,
        camera: disk.camera,
        encodings: Vec::new(),
        batches: Vec::new(),
    };
    let mut i: usize = 0;
    proof {
        assert(all.take(0) =~= Seq::empty());
        assert(model@.batches =~= Seq::empty());
    }
    while i < disk.encodings.len()
        invariant
            i <= disk.encodings.len(),
            all == disk.encodings.deep_view(),
            model.wf(),
            model@.version == disk.version,
            model@.username == disk.username@,
            model@.camera == disk.camera@,
            decode_entries(all.take(i as int)) == Ok::<Seq<Seq<Seq<u32>>>, Seq<char>>(
                model@.batches,
            ),
        decreases disk.encodings.len() - i,
    {
        proof {
            assert(all.take(i + 1).drop_last() =~= all.take(i as int));
            assert(all.take(i + 1).last() == disk.encodings@[i as int]@);
        }
        match &disk.encodings[i] {
            DiskEntry::One(t) => {
                proof {
                    let ts = seq![t@];
                    assert(ts.drop_last() =~= Seq::empty());
                    assert(decode_texts(ts.drop_last()) == Ok::<Seq<Seq<u32>>, Seq<char>>(
                        Seq::empty(),
                    ));
                }
                match encoding_from_hex(t.as_str()) {
                    Ok(enc) => {
                        proof {
                            assert(Seq::<Seq<u32>>::empty().push(enc@) =~= seq![enc@]);
                        }
                        model.add_encoding(enc);
                    },
                    Err(m) => {
                        proof {
                            lemma_decode_entries_error(all, i + 1);
                        }
                        return Err(FaceAuthError::Dlib(m));
                    },
                }
            },
            DiskEntry::Batch(ts) => {
                match decode_batch(ts) {
                    Ok(batch) => {
                        model.add_batch(&batch);
                    },
                    Err(m) => {
                        proof {
                            lemma_decode_entries_error(all, i + 1);
                        }
                        return Err(FaceAuthError::Dlib(m));
                    },
                }
            },
        }
        i = i + 1;
    }
    proof {
        assert(all.take(i as int) =~= all);
    }
    Ok(model)
}

/// The model in the text of a model file, given what parsing the text as JSON
/// came to.
pub fn load_model_from_json(parsed: Result<FaceModelDisk, String>) -> (r: Result<
    FaceModel,
    FaceAuthError,
>)
    ensures
        match parsed {
            Err(m) => r matches Err(e) && e@ == ErrorView::Json(m@),
            Ok(disk) => match decode_model(disk@) {
                Ok(m) => r matches Ok(model) && model.wf() && model@ == m,
                Err(e) => r matches Err(err) && err@ == e,
            },
        },
{
    match parsed {
        Err(m) => Err(FaceAuthError::Json(m)),
        Ok(disk) => load_model_from_disk(disk),
    }
}

// ---------------------------------------------------------------------------
// Storage
// ---------------------------------------------------------------------------

/// The directory that holds the model files, one for each user.
pub const MODEL_DIR: &'static str = "/etc/security/faceauth";

/// Where the model of the user with this number is stored.
pub open spec fn model_path_text(uid: u32) -> Seq<char> {
    MODEL_DIR@ + "/"@ + decimal(uid as nat) + ".json"@
}

/// The message for a user whom the system does not know.
pub open spec fn no_account_text(username: Seq<char>) -> Seq<char> {
    "no system account for '"@ + username + "'"@
}

/// Where the model of the user with this number is stored.
pub fn model_path(uid: u32) -> (r: String)
    ensures
        r@ == model_path_text(uid),
{
    let mut path: String = concat2(MODEL_DIR, "/");
    path.append(decimal_text(uid as u64).as_str());
    path.append(".json");
    path
}

/// No two users share a model file.
pub proof fn law_model_paths_differ(a: u32, b: u32)
    requires
        model_path_text(a) == model_path_text(b),
    ensures
        a == b,
{
    let front = MODEL_DIR@ + "/"@;
    let from = front.len() as int;
    let to = model_path_text(a).len() - ".json"@.len();
    assert(model_path_text(a).subrange(from, to) =~= decimal(a as nat));
    assert(model_path_text(b).subrange(from, to) =~= decimal(b as nat));
    law_parse_decimal(a);
    law_parse_decimal(b);
}

/// Where a model is written before it takes the place of the stored one.
pub fn temp_path(uid: u32) -> (r: String)
    ensures
        r@ == model_path_text(uid) + ".tmp"@,
{
    concat2(model_path(uid).as_str(), ".tmp")
}

fn no_account(username: &str) -> (r: FaceAuthError)
    ensures
        r@ == ErrorView::Storage(no_account_text(username@)),
{
    FaceAuthError::Storage(concat3("no system account for '", username, "'"))
}

/// What came of reading a user's model file.
pub enum FileRead {
    /// There is no such file.
    Missing,
    /// The file could not be read, for this reason.
    Failed(String),
    /// What parsing the contents as JSON came to.
    Parsed(Result<FaceModelDisk, String>),
}

/// What a load comes to for each way that reading the file can go; `None` stands
/// for a user whom the system does not know.
pub open spec fn load_outcome(username: Seq<char>, read: Option<FileRead>) -> Result<
    ModelView,
    ErrorView,
> {
    match read {
        None => Err(ErrorView::ModelNotFound(username)),
        Some(FileRead::Missing) => Err(ErrorView::ModelNotFound(username)),
        Some(FileRead::Failed(m)) => Err(ErrorView::Storage(m@)),
        Some(FileRead::Parsed(Err(m))) => Err(ErrorView::Json(m@)),
        Some(FileRead::Parsed(Ok(disk))) => decode_model(disk@),
    }
}

/// `r` is the model or the error that `want` says.
pub open spec fn model_result(
    r: Result<FaceModel, FaceAuthError>,
    want: Result<ModelView, ErrorView>,
) -> bool {
    match want {
        Ok(m) => r matches Ok(model) && model.wf() && model@ == m,
        Err(e) => r matches Err(err) && err@ == e,
    }
}

/// The stored model of `username`, given what came of reading its file; `None`
/// stands for a user whom the system does not know.
pub fn load_model(username: &str, read: Option<FileRead>) -> (r: Result<FaceModel, FaceAuthError>)
    ensures
        model_result(r, load_outcome(username@, read)),
{
    match read {
        None => Err(FaceAuthError::ModelNotFound(String::from_str(username))),
        Some(FileRead::Missing) => Err(FaceAuthError::ModelNotFound(String::from_str(username))),
        Some(FileRead::Failed(m)) => Err(FaceAuthError::Storage(m)),
        Some(FileRead::Parsed(parsed)) => load_model_from_json(parsed),
    }
}

/// Whether `username` has a model file. `found` says whether the file is there;
/// `None` stands for a user whom the system does not know.
pub fn model_exists(username: &str, found: Option<bool>) -> (r: Result<bool, FaceAuthError>)
    ensures
        match found {
            Some(there) => r == Ok::<bool, FaceAuthError>(there),
            None => r matches Err(e) && e@ == ErrorView::Storage(no_account_text(username@)),
        },
{
    match found {
        Some(there) => Ok(there),
        None => Err(no_account(username)),
    }
}

/// What is known of a user's model file before it is loaded.
pub enum StoredModel {
    /// The system does not know the user.
    NoAccount,
    /// There is no file.
    Absent,
    /// The file is there; this came of reading it.
    Present(FileRead),
}

/// The stored model of `username`, or a new one for `camera` if there is none.
/// An existing model keeps its own camera.
pub fn load_or_create_model(username: &str, camera: CameraId, stored: StoredModel) -> (r: Result<
    FaceModel,
    FaceAuthError,
>)
    ensures
        model_result(
            r,
            match stored {
                StoredModel::NoAccount => Err(ErrorView::Storage(no_account_text(username@))),
                StoredModel::Absent => Ok(ModelView::fresh(username@, camera@)),
                StoredModel::Present(read) => load_outcome(username@, Some(read)),
            },
        ),
{
    match stored {
        StoredModel::NoAccount => Err(no_account(username)),
        StoredModel::Absent => Ok(FaceModel::new(username, camera)),
        StoredModel::Present(read) => load_model(username, Some(read)),
    }
}

/// The permissions of a model file: its owner may read and write it, its group
/// may read it.
pub const MODEL_MODE: u32 = 0o640;

/// How a model is to be stored.
pub struct SavePlan {
    /// What the file will hold.
    pub disk: FaceModelDisk,
    /// Where the new contents are written first.
    pub temp_path: String,
    /// What the written file is then renamed to.
    pub path: String,
    /// The permissions that the file is given before it is renamed.
    pub mode: u32,
    /// The user whom the file is given to before it is renamed.
    pub owner: u32,
}

impl SavePlan {
    /// The plan stores the model `m` for the user with the number `uid`, so that it
    /// can be read back.
    pub open spec fn stores(&self, m: ModelView, uid: u32) -> bool {
        &&& self.disk@ == disk_form(m)
        &&& decode_model(self.disk@) == Ok::<ModelView, ErrorView>(m)
        &&& self.temp_path@ == model_path_text(uid) + ".tmp"@
        &&& self.path@ == model_path_text(uid)
        &&& self.mode == MODEL_MODE
        &&& self.owner == uid
    }
}

/// How to store `model`, for the user with the number `uid`; `None` stands for a
/// user whom the system does not know.
pub fn save_model(model: &FaceModel, uid: Option<u32>) -> (r: Result<SavePlan, FaceAuthError>)
    requires
        model.wf(),
    ensures
        match uid {
            None => r matches Err(e) && e@ == ErrorView::Storage(no_account_text(model@.username)),
            Some(uid) => r matches Ok(plan) && plan.stores(model@, uid),
        },
{
    proof {
        law_load_gives_back_save(*model);
    }
    match uid {
        None => Err(no_account(model.username.as_str())),
        Some(uid) => Ok(
            SavePlan {
                disk: model_to_disk(model),
                temp_path: temp_path(uid),
                path: model_path(uid),
                mode: MODEL_MODE,
                owner: uid,
            },
        ),
    }
}

/// The steps in which a model is stored.
#[derive(Debug, Clone, Copy, PartialEq, Eq, Structural)]
pub enum SaveStep {
    /// Write the contents to the temporary path.
    Write,
    /// Give the temporary file its permissions.
    SetMode,
    /// Give the temporary file to the user.
    SetOwner,
    /// Rename the temporary file to the model's path.
    Rename,
    /// The model is stored.
    Done,
}

/// Whether a failure of this step ends the attempt: any failure does before the model
/// is stored.
pub open spec fn must_succeed(step: SaveStep) -> bool {
    !(step is Done)
}

/// The step that follows.
pub open spec fn step_after(step: SaveStep) -> SaveStep {
    match step {
        SaveStep::Write => SaveStep::SetMode,
        SaveStep::SetMode => SaveStep::SetOwner,
        SaveStep::SetOwner => SaveStep::Rename,
        SaveStep::Rename => SaveStep::Done,
        SaveStep::Done => SaveStep::Done,
    }
}

/// What to do after `step`, given what came of it.
pub fn next_save_step(step: SaveStep, outcome: Result<(), String>) -> (r: Result<
    SaveStep,
    FaceAuthError,
>)
    ensures
        match outcome {
            Err(m) => if must_succeed(step) {
                r matches Err(e) && e@ == ErrorView::Storage(m@)
            } else {
                r == Ok::<SaveStep, FaceAuthError>(step_after(step))
            },
            Ok(_) => r == Ok::<SaveStep, FaceAuthError>(step_after(step)),
        },
{
    if let Err(m) = outcome {
        match step {
            SaveStep::Write | SaveStep::SetMode | SaveStep::SetOwner | SaveStep::Rename => {
                return Err(FaceAuthError::Storage(m));
            },
            SaveStep::Done => {},
        }
    }
    Ok(
        match step {
            SaveStep::Write => SaveStep::SetMode,
            SaveStep::SetMode => SaveStep::SetOwner,
            SaveStep::SetOwner => SaveStep::Rename,
            SaveStep::Rename => SaveStep::Done,
            SaveStep::Done => SaveStep::Done,
        },
    )
}

/// Where an attempt to store a model stands after `outcomes`, each telling
/// whether a step succeeded; `None` once it was given up.
pub open spec fn save_progress(outcomes: Seq<bool>) -> Option<SaveStep>
    decreases outcomes.len(),
{
    if outcomes.len() == 0 {
        Some(SaveStep::Write)
    } else {
        match save_progress(outcomes.drop_last()) {
            None => None,
            Some(step) => if must_succeed(step) && !outcomes.last() {
                None
            } else {
                Some(step_after(step))
            },
        }
    }
}

/// Storing is atomic: the stored model is replaced, by the one rename, only when the
/// new contents were written in full, protected and given to the user beforehand.
pub proof fn law_save_is_atomic(outcomes: Seq<bool>)
    ensures
        save_progress(outcomes) == Some(SaveStep::Rename) <==> outcomes.len() == 3 && outcomes[0]
            && outcomes[1] && outcomes[2],
        save_progress(outcomes) == Some(SaveStep::Done) <==> outcomes.len() >= 4 && outcomes[0]
            && outcomes[1] && outcomes[2] && outcomes[3],
    decreases outcomes.len(),
{
    reveal_with_fuel(save_progress, 5);
    if outcomes.len() > 4 {
        law_save_is_atomic(outcomes.drop_last());
    }
}

// ---------------------------------------------------------------------------
// Laws of models
// ---------------------------------------------------------------------------

/// Enrolling adds one batch at the end, and keeps every other batch in its place, the
/// user, the camera and the version.
pub proof fn law_batch_is_added(m: ModelView, batch: Seq<Seq<u32>>, i: int)
    ensures
        m.with_batch(batch).batches.len() == m.batches.len() + 1,
        m.with_batch(batch).batches.last() == batch,
        0 <= i < m.batches.len() ==> m.with_batch(batch).batches[i] == m.batches[i],
        m.with_batch(batch).username == m.username,
        m.with_batch(batch).camera == m.camera,
        m.with_batch(batch).version == m.version,
{
}

/// Removing a batch takes away that one, closes the gap, and keeps all others in their
/// order, the user, the camera and the version.
pub proof fn law_only_that_batch_is_removed(m: ModelView, i: int, j: int)
    requires
        0 <= i < m.batches.len(),
        0 <= j < m.batches.len(),
    ensures
        m.without_batch(i).batches.len() == m.batches.len() - 1,
        j < i ==> m.without_batch(i).batches[j] == m.batches[j],
        j > i ==> m.without_batch(i).batches[j - 1] == m.batches[j],
        m.without_batch(i).username == m.username,
        m.without_batch(i).camera == m.camera,
        m.without_batch(i).version == m.version,
{
}

/// A new model belongs to its user and camera, has version 1 and holds no encoding.
pub proof fn law_new_model_is_empty(username: Seq<char>, camera: CameraIdView, batch: Seq<Seq<u32>>)
    ensures
        ModelView::fresh(username, camera).username == username,
        ModelView::fresh(username, camera).camera == camera,
        ModelView::fresh(username, camera).version == 1,
        concatenated(ModelView::fresh(username, camera).batches).len() == 0,
        ModelView::fresh(username, camera).with_batch(batch).batches == seq![batch],
{
    assert(Seq::<Seq<Seq<u32>>>::empty().push(batch) =~= seq![batch]);
}

/// Runs follow each other in one sequence: one run is itself, no run is nothing, and
/// two lists of runs are the one and then the other.
pub proof fn law_concatenated<A>(a: Seq<Seq<A>>, b: Seq<Seq<A>>, run: Seq<A>)
    ensures
        concatenated(Seq::<Seq<A>>::empty()).len() == 0,
        concatenated(seq![run]) == run,
        concatenated(a + b) == concatenated(a) + concatenated(b),
    decreases b.len(),
{
    assert(seq![run].drop_last() =~= Seq::empty());
    assert(concatenated(Seq::<Seq<A>>::empty()) =~= Seq::empty());
    assert(concatenated(seq![run].drop_last()) =~= Seq::<A>::empty());
    assert(concatenated(seq![run]) =~= run);
    if b.len() > 0 {
        law_concatenated(a, b.drop_last(), run);
        assert((a + b).drop_last() =~= a + b.drop_last());
        assert(concatenated(a + b) =~= concatenated(a) + concatenated(b));
    } else {
        assert(a + b =~= a);
        assert(concatenated(a) + concatenated(b) =~= concatenated(a));
    }
}

/// The batches of a model have the sizes it notes, and its encodings are theirs, one
/// batch after another.
pub proof fn law_batch_sizes(m: FaceModel, i: int)
    requires
        m.wf(),
        0 <= i < m.batches@.len(),
    ensures
        m@.batches.len() == m.batches@.len(),
        m@.batches[i].len() == m.batches@[i],
        concatenated(m@.batches).len() == m.encodings@.len(),
        forall|k: int|
            0 <= k < m.encodings@.len() ==> #[trigger] concatenated(m@.batches)[k]
                == m.encodings@[k]@,
{
    lemma_split_sizes(patterns(m.encodings@), m.batches@, i);
    law_encodings_are_batches(m);
    assert forall|k: int| 0 <= k < m.encodings@.len() implies #[trigger] concatenated(m@.batches)[k]
        == m.encodings@[k]@ by {
        assert(patterns(m.encodings@)[k] == m.encodings@[k]@);
    }
}

proof fn lemma_split_sizes<A>(items: Seq<A>, sizes: Seq<usize>, i: int)
    requires
        total(sizes) == items.len(),
        0 <= i < sizes.len(),
    ensures
        split(items, sizes).len() == sizes.len(),
        split(items, sizes)[i].len() == sizes[i],
    decreases sizes.len(),
{
    lemma_split_len(items, sizes);
    let at = items.len() - sizes.last();
    lemma_split_len(items.take(at), sizes.drop_last());
    if i < sizes.len() - 1 {
        lemma_split_sizes(items.take(at), sizes.drop_last(), i);
    }
}

/// A model file holds one entry for each batch, in order: the text of its encoding where
/// there is just one, else the texts of all.
pub proof fn law_file_entries(m: ModelView, b: int, i: int)
    requires
        0 <= b < m.batches.len(),
        0 <= i < m.batches[b].len(),
    ensures
        disk_form(m).encodings.len() == m.batches.len(),
        disk_form(m).username == m.username && disk_form(m).camera == m.camera && disk_form(
            m,
        ).version == m.version,
        match disk_form(m).encodings[b] {
            EntryView::One(text) => m.batches[b].len() == 1 && text == words_hex(m.batches[b][0]),
            EntryView::Batch(texts) => m.batches[b].len() != 1 && texts.len() == m.batches[b].len()
                && texts[i] == words_hex(m.batches[b][i]),
        },
{
}

/// Every text of the entry stands for an encoding.
pub open spec fn readable(e: EntryView) -> bool {
    match e {
        EntryView::One(t) => hex_words(encode_utf8(t)) is Ok,
        EntryView::Batch(ts) => forall|i: int|
            0 <= i < ts.len() ==> hex_words(encode_utf8(#[trigger] ts[i])) is Ok,
    }
}

proof fn lemma_decode_texts_all(ts: Seq<Seq<char>>)
    ensures
        decode_texts(ts) is Ok <==> forall|i: int|
            0 <= i < ts.len() ==> hex_words(encode_utf8(#[trigger] ts[i])) is Ok,
        decode_texts(ts) matches Ok(batch) ==> batch.len() == ts.len() && forall|i: int|
            0 <= i < ts.len() ==> hex_words(encode_utf8(#[trigger] ts[i])) == Ok::<
                Seq<u32>,
                Seq<char>,
            >(batch[i]),
    decreases ts.len(),
{
    if ts.len() > 0 {
        let front = ts.drop_last();
        lemma_decode_texts_all(front);
        assert forall|i: int| 0 <= i < front.len() implies #[trigger] front[i] == ts[i] by {}
        assert(ts[ts.len() - 1] == ts.last());
        if decode_texts(ts) is Ok {
            assert forall|i: int| 0 <= i < ts.len() implies hex_words(
                encode_utf8(#[trigger] ts[i]),
            ) == Ok::<Seq<u32>, Seq<char>>(decode_texts(ts)->Ok_0[i]) by {
                if i < front.len() {
                    assert(front[i] == ts[i]);
                }
            }
        } else if forall|i: int|
            0 <= i < ts.len() ==> hex_words(encode_utf8(#[trigger] ts[i])) is Ok {
            assert forall|i: int| 0 <= i < front.len() implies hex_words(
                encode_utf8(#[trigger] front[i]),
            ) is Ok by {
                assert(ts[i] == front[i]);
            }
        }
    }
}

proof fn lemma_decode_entries_all(entries: Seq<EntryView>)
    ensures
        decode_entries(entries) is Ok <==> forall|b: int|
            0 <= b < entries.len() ==> decode_entry(#[trigger] entries[b]) is Ok,
        decode_entries(entries) matches Ok(batches) ==> batches.len() == entries.len() && forall|
            b: int,
        |
            0 <= b < entries.len() ==> decode_entry(#[trigger] entries[b]) == Ok::<
                Seq<Seq<u32>>,
                Seq<char>,
            >(batches[b]),
    decreases entries.len(),
{
    if entries.len() > 0 {
        let front = entries.drop_last();
        lemma_decode_entries_all(front);
        assert(entries[entries.len() - 1] == entries.last());
        if decode_entries(entries) is Ok {
            assert forall|b: int| 0 <= b < entries.len() implies decode_entry(#[trigger] entries[b])
                == Ok::<Seq<Seq<u32>>, Seq<char>>(decode_entries(entries)->Ok_0[b]) by {
                if b < front.len() {
                    assert(front[b] == entries[b]);
                }
            }
        } else if forall|b: int|
            0 <= b < entries.len() ==> decode_entry(#[trigger] entries[b]) is Ok {
            assert forall|b: int| 0 <= b < front.len() implies decode_entry(#[trigger] front[b]) is Ok
                by {
                assert(entries[b] == front[b]);
            }
        }
    }
}

/// Reading a file gives its user, camera and version, and a batch for each entry with
/// what each text of the entry stands for; an entry that is a single text, as in older
/// files, is a batch of one. It fails exactly if a text stands for nothing.
pub proof fn law_file_is_read_whole(d: DiskView, b: int, i: int)
    ensures
        decode_model(d) is Err <==> exists|k: int|
            0 <= k < d.encodings.len() && match #[trigger] d.encodings[k] {
                EntryView::One(t) => hex_words(encode_utf8(t)) is Err,
                EntryView::Batch(ts) => exists|j: int|
                    0 <= j < ts.len() && hex_words(encode_utf8(#[trigger] ts[j])) is Err,
            },
        decode_model(d) matches Ok(m) ==> m.username == d.username && m.camera == d.camera
            && m.version == d.version && m.batches.len() == d.encodings.len(),
        decode_model(d) is Ok && 0 <= b < d.encodings.len() ==> match d.encodings[b] {
            EntryView::One(t) => decode_model(d)->Ok_0.batches[b].len() == 1 && hex_words(
                encode_utf8(t),
            ) == Ok::<Seq<u32>, Seq<char>>(decode_model(d)->Ok_0.batches[b][0]),
            EntryView::Batch(ts) => decode_model(d)->Ok_0.batches[b].len() == ts.len() && (0 <= i
                < ts.len() ==> hex_words(encode_utf8(ts[i])) == Ok::<Seq<u32>, Seq<char>>(
                decode_model(d)->Ok_0.batches[b][i],
            )),
        },
        decode_model(d) matches Err(e) ==> e is Dlib,
{
    lemma_decode_entries_all(d.encodings);
    assert forall|k: int| 0 <= k < d.encodings.len() implies (decode_entry(
        #[trigger] d.encodings[k],
    ) is Ok <==> readable(d.encodings[k])) by {
        lemma_entry(d.encodings[k]);
    }
    if decode_model(d) is Err {
        let k = choose|k: int|
            0 <= k < d.encodings.len() && !(decode_entry(#[trigger] d.encodings[k]) is Ok);
        assert(!readable(d.encodings[k]));
        if let EntryView::Batch(ts) = d.encodings[k] {
            let j = choose|j: int|
                0 <= j < ts.len() && !(hex_words(encode_utf8(#[trigger] ts[j])) is Ok);
            assert(hex_words(encode_utf8(ts[j])) is Err);
        }
    } else {
        if 0 <= b < d.encodings.len() {
            lemma_entry(d.encodings[b]);
            if let EntryView::Batch(ts) = d.encodings[b] {
                lemma_decode_texts_all(ts);
            }
        }
        assert forall|k: int| 0 <= k < d.encodings.len() implies readable(
            #[trigger] d.encodings[k],
        ) by {}
    }
}

proof fn lemma_entry(e: EntryView)
    ensures
        decode_entry(e) is Ok <==> readable(e),
        decode_entry(e) is Ok ==> (e matches EntryView::One(t) ==> decode_entry(e)->Ok_0.len() == 1
            && hex_words(encode_utf8(t)) == Ok::<Seq<u32>, Seq<char>>(decode_entry(e)->Ok_0[0])),
{
    match e {
        EntryView::One(t) => {
            let ts = seq![t];
            lemma_decode_texts_all(ts);
            assert(ts[0] == t);
        },
        EntryView::Batch(ts) => {
            lemma_decode_texts_all(ts);
        },
    }
}

/// A model is loaded exactly if its file was there, could be read and parsed, and holds
/// nothing but encodings; a user whom the system does not know has no model, nor has one
/// without a file.
pub proof fn law_load_outcome(username: Seq<char>, read: Option<FileRead>)
    ensures
        load_outcome(username, read) is Ok <==> (read matches Some(FileRead::Parsed(Ok(disk)))
            && decode_model(disk@) is Ok),
        load_outcome(username, read) matches Ok(m) ==> (read matches Some(
            FileRead::Parsed(Ok(disk)),
        ) && m.username == disk.username@ && m.camera == disk.camera@ && m.batches.len()
            == disk.encodings@.len()),
        load_outcome(username, read) == Err::<ModelView, ErrorView>(
            ErrorView::ModelNotFound(username),
        ) <==> read is None || (read matches Some(FileRead::Missing)),
        read matches Some(FileRead::Failed(m)) ==> load_outcome(username, read) == Err::<
            ModelView,
            ErrorView,
        >(ErrorView::Storage(m@)),
        read matches Some(FileRead::Parsed(Err(m))) ==> load_outcome(username, read) == Err::<
            ModelView,
            ErrorView,
        >(ErrorView::Json(m@)),
{
    if let Some(FileRead::Parsed(Ok(disk))) = read {
        law_file_is_read_whole(disk@, 0, 0);
    }
}

/// A stored model is read back as it was, lies in the directory of models under its
/// owner's number, is written beside its place first, and may be changed by its owner
/// only and read by the group only.
pub proof fn law_stored_model(plan: SavePlan, m: ModelView, uid: u32)
    requires
        plan.stores(m, uid),
    ensures
        decode_model(plan.disk@) == Ok::<ModelView, ErrorView>(m),
        plan.path@ == "/etc/security/faceauth"@ + "/"@ + decimal(uid as nat) + ".json"@,
        plan.temp_path@ == plan.path@ + ".tmp"@,
        plan.temp_path@ != plan.path@,
        plan.mode == 6 * 64 + 4 * 8,
        plan.owner == uid,
{
    reveal_strlit(".tmp");
    assert(plan.temp_path@.len() == plan.path@.len() + 4);
}

/// Storing goes through its steps one by one, and is given up at the first that fails.
pub proof fn law_save_steps(outcomes: Seq<bool>)
    ensures
        outcomes.len() == 0 ==> save_progress(outcomes) == Some(SaveStep::Write),
        outcomes.len() == 1 && outcomes[0] ==> save_progress(outcomes) == Some(SaveStep::SetMode),
        outcomes.len() == 2 && outcomes[0] && outcomes[1] ==> save_progress(outcomes) == Some(
            SaveStep::SetOwner,
        ),
        save_progress(outcomes) is None <==> exists|i: int|
            0 <= i < outcomes.len() && i < 4 && !#[trigger] outcomes[i],
    decreases outcomes.len(),
{
    reveal_with_fuel(save_progress, 5);
    if outcomes.len() > 0 {
        let front = outcomes.drop_last();
        law_save_steps(front);
        law_save_is_atomic(front);
        if exists|i: int| 0 <= i < front.len() && i < 4 && !#[trigger] front[i] {
            let i = choose|i: int| 0 <= i < front.len() && i < 4 && !#[trigger] front[i];
            assert(!outcomes[i]);
        }
        if exists|i: int| 0 <= i < outcomes.len() && i < 4 && !#[trigger] outcomes[i] {
            let i = choose|i: int| 0 <= i < outcomes.len() && i < 4 && !#[trigger] outcomes[i];
            if i < front.len() {
                assert(!front[i]);
            }
        }
        if save_progress(front) is Some && save_progress(outcomes) is None {
            assert(!outcomes[outcomes.len() - 1]);
            if outcomes.len() > 4 {
                assert(save_progress(front) == Some(SaveStep::Done)) by {
                    assert(front[0] && front[1] && front[2] && front[3]);
                }
            }
        }
    }
}

/// A camera is told by its stable names and its number, all three.
pub proof fn law_cameras_by_contents(a: CameraId, b: CameraId)
    ensures
        a@ == b@ ==> a.index == b.index && (a.by_id is Some <==> b.by_id is Some) && (
        a.by_id is Some ==> a.by_id->0@ == b.by_id->0@) && (a.by_path is Some <==> b.by_path is Some)
            && (a.by_path is Some ==> a.by_path->0@ == b.by_path->0@),
{
}

/// A model is told by its version, user and camera, and by all its encodings.
pub proof fn law_models_by_contents(a: FaceModel, b: FaceModel, k: int)
    requires
        a.wf(),
        b.wf(),
        a@ == b@,
    ensures
        a.version == b.version,
        a.username@ == b.username@,
        a.camera@ == b.camera@,
        a.encodings@.len() == b.encodings@.len(),
        0 <= k < a.encodings@.len() ==> a.encodings@[k]@ == b.encodings@[k]@,
        a.batches@.len() == b.batches@.len(),
        forall|i: int| 0 <= i < a.batches@.len() ==> #[trigger] a.batches@[i] == b.batches@[i],
{
    law_encodings_are_batches(a);
    law_encodings_are_batches(b);
    law_patterns(a.encodings@, k);
    law_patterns(b.encodings@, k);
    lemma_split_len(patterns(a.encodings@), a.batches@);
    lemma_split_len(patterns(b.encodings@), b.batches@);
    assert forall|i: int| 0 <= i < a.batches@.len() implies #[trigger] a.batches@[i]
        == b.batches@[i] by {
        lemma_split_sizes(patterns(a.encodings@), a.batches@, i);
        lemma_split_sizes(patterns(b.encodings@), b.batches@, i);
    }
}

/// The patterns of encodings are those of each, in order.
pub proof fn law_patterns(encodings: Seq<Encoding>, k: int)
    ensures
        patterns(encodings).len() == encodings.len(),
        0 <= k < encodings.len() ==> patterns(encodings)[k] == encodings[k]@,
{
}

/// A file is told by its version, user and camera, and by every text of its entries.
pub proof fn law_files_by_contents(a: FaceModelDisk, b: FaceModelDisk, k: int)
    requires
        a@ == b@,
    ensures
        a.version == b.version,
        a.username@ == b.username@,
        a.camera@ == b.camera@,
        a.encodings@.len() == b.encodings@.len(),
        0 <= k < a.encodings@.len() ==> match (a.encodings@[k], b.encodings@[k]) {
            (DiskEntry::One(x), DiskEntry::One(y)) => x@ == y@,
            (DiskEntry::Batch(xs), DiskEntry::Batch(ys)) => xs@.len() == ys@.len() && forall|i: int|
                0 <= i < xs@.len() ==> (#[trigger] xs@[i])@ == ys@[i]@,
            _ => false,
        },
{
    assert(a.encodings.deep_view().len() == a.encodings@.len());
    assert(b.encodings.deep_view().len() == b.encodings@.len());
    if 0 <= k < a.encodings@.len() {
        assert(a.encodings.deep_view()[k] == a.encodings@[k]@);
        assert(b.encodings.deep_view()[k] == b.encodings@[k]@);
        match (a.encodings@[k], b.encodings@[k]) {
            (DiskEntry::Batch(xs), DiskEntry::Batch(ys)) => {
                assert(xs.deep_view() == ys.deep_view());
                assert(xs.deep_view().len() == xs@.len() && ys.deep_view().len() == ys@.len());
                assert forall|i: int| 0 <= i < xs@.len() implies (#[trigger] xs@[i])@ == ys@[i]@ by {
                    assert(xs.deep_view()[i] == xs@[i]@ && ys.deep_view()[i] == ys@[i]@);
                }
            },
            _ => {},
        }
    }
}

/// What a load is to come to is what it comes to: the model itself, or the error itself.
pub proof fn law_model_result(
    r: Result<FaceModel, FaceAuthError>,
    want: Result<ModelView, ErrorView>,
)
    requires
        model_result(r, want),
    ensures
        r is Ok <==> want is Ok,
        r is Ok ==> r->Ok_0@ == want->Ok_0 && total(r->Ok_0.batches@) == r->Ok_0.encodings@.len(),
        r is Err ==> r->Err_0@ == want->Err_0,
{
}

/// The model files lie in one directory.
pub proof fn law_model_directory(uid: u32)
    ensures
        starts_with(model_path_text(uid), "/etc/security/faceauth/"@),
        contains(model_path_text(uid), decimal(uid as nat)),
        contains(no_account_text(decimal(uid as nat)), decimal(uid as nat)),
{
    reveal_strlit("/etc/security/faceauth");
    reveal_strlit("/etc/security/faceauth/");
    reveal_strlit("/");
    let d = decimal(uid as nat);
    assert(model_path_text(uid).subrange(0, 23) =~= "/etc/security/faceauth/"@);
    law_contains_part(MODEL_DIR@ + "/"@, d, ".json"@, d);
    law_contains_part("no system account for '"@, d, "'"@, d);
}

/// What is said of a file that cannot be read is what is wrong with the first bad text
/// in it.
pub proof fn law_first_bad_text(d: DiskView, k: int, j: int, m: Seq<char>)
    requires
        0 <= k < d.encodings.len(),
        forall|b: int| 0 <= b < k ==> readable(#[trigger] d.encodings[b]),
    ensures
        d.encodings[k] matches EntryView::One(t) ==> (hex_words(encode_utf8(t)) == Err::<
            Seq<u32>,
            Seq<char>,
        >(m) ==> decode_model(d) == Err::<ModelView, ErrorView>(ErrorView::Dlib(m))),
        d.encodings[k] matches EntryView::Batch(ts) ==> (0 <= j < ts.len() && hex_words(
            encode_utf8(ts[j]),
        ) == Err::<Seq<u32>, Seq<char>>(m) && (forall|i: int|
            0 <= i < j ==> hex_words(encode_utf8(#[trigger] ts[i])) is Ok) ==> decode_model(d)
            == Err::<ModelView, ErrorView>(ErrorView::Dlib(m))),
{
    let entries = d.encodings;
    let front = entries.take(k);
    lemma_decode_entries_all(front);
    assert forall|b: int| 0 <= b < front.len() implies decode_entry(#[trigger] front[b]) is Ok by {
        assert(front[b] == entries[b]);
        lemma_entry(front[b]);
    }
    let upto = entries.take(k + 1);
    assert(upto.drop_last() =~= front);
    assert(upto.last() == entries[k]);
    match entries[k] {
        EntryView::One(t) => {
            let ts = seq![t];
            if hex_words(encode_utf8(t)) == Err::<Seq<u32>, Seq<char>>(m) {
                lemma_first_bad(ts, 0, m);
                lemma_decode_entries_error(entries, k + 1);
            }
        },
        EntryView::Batch(ts) => {
            if 0 <= j < ts.len() && hex_words(encode_utf8(ts[j])) == Err::<Seq<u32>, Seq<char>>(m)
                && (forall|i: int|
                0 <= i < j ==> hex_words(encode_utf8(#[trigger] ts[i])) is Ok) {
                lemma_first_bad(ts, j, m);
                lemma_decode_entries_error(entries, k + 1);
            }
        },
    }
}

proof fn lemma_first_bad(ts: Seq<Seq<char>>, j: int, m: Seq<char>)
    requires
        0 <= j < ts.len(),
        hex_words(encode_utf8(ts[j])) == Err::<Seq<u32>, Seq<char>>(m),
        forall|i: int| 0 <= i < j ==> hex_words(encode_utf8(#[trigger] ts[i])) is Ok,
    ensures
        decode_texts(ts) == Err::<Seq<Seq<u32>>, Seq<char>>(m),
{
    let front = ts.take(j);
    lemma_decode_texts_all(front);
    assert forall|i: int| 0 <= i < front.len() implies hex_words(
        encode_utf8(#[trigger] front[i]),
    ) is Ok by {
        assert(front[i] == ts[i]);
    }
    let upto = ts.take(j + 1);
    assert(upto.drop_last() =~= front);
    assert(upto.last() == ts[j]);
    lemma_decode_texts_error(ts, j + 1);
}

}
