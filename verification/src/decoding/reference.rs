//! Picture order counts, decoded-picture-buffer marking and reference list
//! construction (§8.3).
use vstd::prelude::*;
use super::picture::{plane_len, DecodedPicture, SamplePlane};
use crate::format::{component_dimension_spec, PictureFormat};
use crate::syntax::{ShortTermReferencePictureSet, SliceReferencePictureSet};

verus! {

/// `PicOrderCntMsb` of §8.3.1 (8-1), before the lsb is added.
pub open spec fn poc_msb(lsb: u64, prev_lsb: u64, prev_msb: i64, max_lsb: u64) -> int {
    let half = max_lsb / 2;
    if lsb < prev_lsb && prev_lsb - lsb >= half {
        prev_msb + (max_lsb as i64)
    } else if lsb > prev_lsb && lsb - prev_lsb > half {
        prev_msb - (max_lsb as i64)
    } else {
        prev_msb as int
    }
}

/// `PicOrderCntVal` of §8.3.1: zero for an IRAP picture with
/// `NoRaslOutputFlag`, otherwise `PicOrderCntMsb + slice_pic_order_cnt_lsb`.
pub open spec fn picture_order_count(lsb: u64, prev_lsb: u64, prev_msb: i64, max_lsb: u64, no_rasl_output: bool) -> int {
    if no_rasl_output {
        0
    } else {
        poc_msb(lsb, prev_lsb, prev_msb, max_lsb) + (lsb as i64)
    }
}

/// The picture order count derivation stays within `i64`.
pub open spec fn picture_order_count_defined(lsb: u64, prev_lsb: u64, prev_msb: i64, max_lsb: u64, no_rasl_output: bool) -> bool {
    no_rasl_output || {
        &&& i64::MIN <= poc_msb(lsb, prev_lsb, prev_msb, max_lsb) <= i64::MAX
        &&& i64::MIN <= poc_msb(lsb, prev_lsb, prev_msb, max_lsb) + (lsb as i64) <= i64::MAX
    }
}

/// The POC of a picture without `NoRaslOutputFlag` is the value congruent to
/// its lsb modulo `MaxPicOrderCntLsb` nearest the previous POC
/// `prevPicOrderCntMsb + prevPicOrderCntLsb`: it differs from
/// `prevPicOrderCntMsb + slice_pic_order_cnt_lsb` by `-Max`, `0` or `+Max`,
/// lies within `Max / 2` of the previous POC, and equals
/// `prevPicOrderCntMsb + slice_pic_order_cnt_lsb` whenever the two lsbs are
/// less than `Max / 2` apart; at exactly `Max / 2` apart it is the later of
/// the two candidates when the lsb fell and `prevPicOrderCntMsb +
/// slice_pic_order_cnt_lsb` when it rose.
pub proof fn lemma_poc_is_nearest_to_previous(lsb: u64, prev_lsb: u64, prev_msb: i64, max_lsb: u64)
    requires
        lsb < max_lsb,
        prev_lsb < max_lsb,
        max_lsb % 2 == 0,
        max_lsb <= i64::MAX,
    ensures
        ({
            let poc = picture_order_count(lsb, prev_lsb, prev_msb, max_lsb, false);
            let base = prev_msb + lsb;
            let previous = prev_msb + prev_lsb;
            &&& (poc == base || poc == base + max_lsb || poc == base - max_lsb)
            &&& previous - max_lsb / 2 <= poc <= previous + max_lsb / 2
            &&& (lsb - prev_lsb < max_lsb / 2 && prev_lsb - lsb < max_lsb / 2 ==> poc == base)
            &&& (prev_lsb - lsb == max_lsb / 2 && max_lsb > 0 ==> poc == base + max_lsb)
            &&& (lsb - prev_lsb == max_lsb / 2 && max_lsb > 0 ==> poc == base)
        }),
{
}

/// Derives `PicOrderCntMsb` and `PicOrderCntVal` from §8.3.1.
pub fn derive_picture_order_count(slice_pic_order_cnt_lsb: u64, prev_pic_order_cnt_lsb: u64, prev_pic_order_cnt_msb: i64, max_pic_order_cnt_lsb: u64, no_rasl_output: bool) -> (r: i64)
    requires
        picture_order_count_defined(
            slice_pic_order_cnt_lsb,
            prev_pic_order_cnt_lsb,
            prev_pic_order_cnt_msb,
            max_pic_order_cnt_lsb,
            no_rasl_output,
        ),
    ensures
        r == picture_order_count(
            slice_pic_order_cnt_lsb,
            prev_pic_order_cnt_lsb,
            prev_pic_order_cnt_msb,
            max_pic_order_cnt_lsb,
            no_rasl_output,
        ),
{
    if no_rasl_output {
        return 0;
    }
    let half = max_pic_order_cnt_lsb / 2;
    let msb = if slice_pic_order_cnt_lsb < prev_pic_order_cnt_lsb && prev_pic_order_cnt_lsb - slice_pic_order_cnt_lsb >= half {
        prev_pic_order_cnt_msb + max_pic_order_cnt_lsb as i64
    } else if slice_pic_order_cnt_lsb > prev_pic_order_cnt_lsb && slice_pic_order_cnt_lsb - prev_pic_order_cnt_lsb > half {
        prev_pic_order_cnt_msb - max_pic_order_cnt_lsb as i64
    } else {
        prev_pic_order_cnt_msb
    };
    msb + slice_pic_order_cnt_lsb as i64
}

/// Returns `PicOrderCnt(picA) - PicOrderCnt(picB)`.
pub fn diff_picture_order_count(pic_a: i64, pic_b: i64) -> (r: i64)
    requires
        i64::MIN <= pic_a - pic_b <= i64::MAX,
    ensures
        r == pic_a - pic_b,
{
    pic_a - pic_b
}

/// DPB marking state from §8.3.2.
#[derive(Clone, Copy, Debug, Eq, PartialEq, Structural)]
pub enum PictureMarking {
    /// Not used for reference.
    Unused,
    /// Used for short-term reference.
    ShortTerm,
    /// Used for long-term reference.
    LongTerm,
}

/// A decoded picture stored in the decoded-picture buffer.
#[derive(Clone, Debug, Eq, PartialEq)]
pub struct ReferenceSet {
    /// Picture sample data.
    pub picture: DecodedPicture,
    /// Full picture order count, when known.
    pub picture_order_count: i64,
    /// Layer identifier.
    pub layer_id: u8,
    /// Reference marking.
    pub marking: PictureMarking,
    /// Whether the picture is output eligible.
    pub output_needed: bool,
}

/// `entry` with its marking replaced by `marking`.
pub open spec fn remarked(entry: ReferenceSet, marking: PictureMarking) -> ReferenceSet {
    ReferenceSet {
        picture: entry.picture,
        picture_order_count: entry.picture_order_count,
        layer_id: entry.layer_id,
        marking,
        output_needed: entry.output_needed,
    }
}

/// The entry can be evicted first: unused for reference and not awaiting output.
pub open spec fn evictable(entry: ReferenceSet) -> bool {
    entry.marking == PictureMarking::Unused && !entry.output_needed
}

/// The index of the first evictable entry of `pictures`, if any.
pub open spec fn first_evictable(pictures: Seq<ReferenceSet>) -> Option<int> {
    if exists|i: int| 0 <= i < pictures.len() && evictable(#[trigger] pictures[i]) {
        Some(choose|i: int| 0 <= i < pictures.len() && evictable(#[trigger] pictures[i]) && forall|j: int| 0 <= j < i ==> !evictable(#[trigger] pictures[j]))
    } else {
        None
    }
}

/// A bounded decoded-picture buffer with the marking transitions of §8.3.
#[derive(Clone, Debug, Eq, PartialEq)]
pub struct DecodedPictureBuffer {
    capacity: usize,
    pictures: Vec<ReferenceSet>,
}

/// The stored pictures after inserting `picture` into a buffer of `capacity`.
pub open spec fn inserted(pictures: Seq<ReferenceSet>, capacity: int, picture: ReferenceSet) -> Seq<ReferenceSet> {
    if capacity == 0 {
        pictures
    } else if pictures.len() >= capacity {
        match first_evictable(pictures) {
            Some(i) => pictures.remove(i).push(picture),
            None => pictures.remove(0).push(picture),
        }
    } else {
        pictures.push(picture)
    }
}

/// The marking `apply_reference_set` gives an entry of the current layer.
pub open spec fn rps_marking(entry: ReferenceSet, current_poc: i64, rps_poc: i64) -> PictureMarking {
    if entry.picture_order_count == rps_poc {
        PictureMarking::ShortTerm
    } else if entry.picture_order_count < current_poc {
        PictureMarking::Unused
    } else {
        entry.marking
    }
}

/// The marking `mark_reference_pocs` gives an entry of the current layer
/// other than the current picture.
pub open spec fn poc_set_marking(entry: ReferenceSet, short_term: Seq<i64>, long_term: Seq<i64>) -> PictureMarking {
    if long_term.contains(entry.picture_order_count) {
        PictureMarking::LongTerm
    } else if short_term.contains(entry.picture_order_count) {
        PictureMarking::ShortTerm
    } else {
        PictureMarking::Unused
    }
}

/// `s` with `x` placed after every element whose picture order count is not
/// larger: one step of a stable sort by picture order count.
pub open spec fn insert_by_poc(s: Seq<ReferenceSet>, x: ReferenceSet) -> Seq<ReferenceSet>
    decreases s.len(),
{
    if s.len() == 0 {
        seq![x]
    } else if s.last().picture_order_count <= x.picture_order_count {
        s.push(x)
    } else {
        insert_by_poc(s.drop_last(), x).push(s.last())
    }
}

/// The entries of `s` stably sorted by picture order count.
pub open spec fn sorted_by_poc(s: Seq<ReferenceSet>) -> Seq<ReferenceSet>
    decreases s.len(),
{
    if s.len() == 0 {
        s
    } else {
        insert_by_poc(sorted_by_poc(s.drop_last()), s.last())
    }
}

/// The entries of `s` in the given layer with the given marking, in order.
pub open spec fn matching_entries(s: Seq<ReferenceSet>, layer_id: u8, marking: PictureMarking) -> Seq<ReferenceSet> {
    s.filter(|e: ReferenceSet| e.layer_id == layer_id && e.marking == marking)
}

impl DecodedPictureBuffer {
    /// The stored pictures, oldest first.
    pub closed spec fn entries(&self) -> Seq<ReferenceSet> {
        self.pictures@
    }

    /// The maximum number of stored pictures.
    pub closed spec fn limit(&self) -> usize {
        self.capacity
    }

    /// Creates an empty DPB.
    pub fn new(capacity: usize) -> (r: Self)
        ensures
            r.limit() == capacity,
            r.entries() == Seq::<ReferenceSet>::empty(),
    {
        Self { capacity, pictures: Vec::new() }
    }

    /// Maximum number of stored pictures.
    pub fn capacity(&self) -> (r: usize)
        ensures
            r == self.limit(),
    {
        self.capacity
    }

    /// Current entries.
    pub fn pictures(&self) -> (r: &[ReferenceSet])
        ensures
            r@ == self.entries(),
    {
        self.pictures.as_slice()
    }

    /// Inserts a decoded picture, evicting the oldest unused/output picture if required.
    pub fn insert(&mut self, picture: ReferenceSet)
        ensures
            final(self).limit() == old(self).limit(),
            final(self).entries() == inserted(old(self).entries(), old(self).limit() as int, picture),
    {
        if self.capacity == 0 {
            return;
        }
        if self.pictures.len() >= self.capacity {
            let mut index: usize = 0;
            let mut found = false;
            while index < self.pictures.len()
                invariant_except_break
                    index <= self.pictures@.len(),
                    !found,
                    forall|j: int| 0 <= j < index ==> !evictable(#[trigger] self.pictures@[j]),
                ensures
                    index <= self.pictures@.len(),
                    forall|j: int| 0 <= j < index ==> !evictable(#[trigger] self.pictures@[j]),
                    found ==> index < self.pictures@.len() && evictable(self.pictures@[index as int]),
                    !found ==> index == self.pictures@.len(),
                decreases self.pictures@.len() - index,
            {
                if self.pictures[index].marking == PictureMarking::Unused && !self.pictures[index].output_needed {
                    found = true;
                    break;
                }
                index += 1;
            }
            proof {
                let s = self.pictures@;
                if found {
                    assert(exists|i: int| 0 <= i < s.len() && evictable(#[trigger] s[i]));
                    let c = first_evictable(s)->Some_0;
                    assert(c == index) by {
                        if c < index {
                        } else if c > index {
                        }
                    }
                } else {
                    assert(!exists|i: int| 0 <= i < s.len() && evictable(#[trigger] s[i]));
                }
            }
            if found {
                self.pictures.remove(index);
            } else if self.pictures.len() > 0 {
                self.pictures.remove(0);
            }
        }
        self.pictures.push(picture);
    }

    /// Marks all pictures in a layer as unused, as required at an IRAP boundary.
    pub fn mark_layer_unused(&mut self, layer_id: u8)
        ensures
            final(self).limit() == old(self).limit(),
            final(self).entries().len() == old(self).entries().len(),
            forall|i: int| 0 <= i < old(self).entries().len() ==> #[trigger] final(self).entries()[i] == if old(self).entries()[i].layer_id
                == layer_id {
                remarked(old(self).entries()[i], PictureMarking::Unused)
            } else {
                old(self).entries()[i]
            },
    {
        let mut index: usize = 0;
        while index < self.pictures.len()
            invariant
                self.capacity == old(self).capacity,
                self.pictures@.len() == old(self).pictures@.len(),
                index <= self.pictures@.len(),
                forall|i: int| 0 <= i < self.pictures@.len() ==> #[trigger] self.pictures@[i] == if i < index
                    && old(self).pictures@[i].layer_id == layer_id {
                    remarked(old(self).pictures@[i], PictureMarking::Unused)
                } else {
                    old(self).pictures@[i]
                },
            decreases self.pictures@.len() - index,
        {
            if self.pictures[index].layer_id == layer_id {
                self.pictures[index].marking = PictureMarking::Unused;
            }
            index += 1;
        }
    }

    /// Applies a compact RPS marking operation for the current layer.
    pub fn apply_reference_set(&mut self, current_poc: i64, layer_id: u8, rps: &ReferenceSet)
        ensures
            final(self).limit() == old(self).limit(),
            final(self).entries().len() == old(self).entries().len(),
            forall|i: int| 0 <= i < old(self).entries().len() ==> #[trigger] final(self).entries()[i] == if old(self).entries()[i].layer_id
                == layer_id {
                remarked(old(self).entries()[i], rps_marking(old(self).entries()[i], current_poc, rps.picture_order_count))
            } else {
                old(self).entries()[i]
            },
    {
        let mut index: usize = 0;
        while index < self.pictures.len()
            invariant
                self.capacity == old(self).capacity,
                self.pictures@.len() == old(self).pictures@.len(),
                index <= self.pictures@.len(),
                forall|i: int| 0 <= i < self.pictures@.len() ==> #[trigger] self.pictures@[i] == if i < index
                    && old(self).pictures@[i].layer_id == layer_id {
                    remarked(old(self).pictures@[i], rps_marking(old(self).pictures@[i], current_poc, rps.picture_order_count))
                } else {
                    old(self).pictures@[i]
                },
            decreases self.pictures@.len() - index,
        {
            if self.pictures[index].layer_id == layer_id {
                let marking = if self.pictures[index].picture_order_count == rps.picture_order_count {
                    PictureMarking::ShortTerm
                } else if self.pictures[index].picture_order_count < current_poc {
                    PictureMarking::Unused
                } else {
                    self.pictures[index].marking
                };
                self.pictures[index].marking = marking;
            }
            index += 1;
        }
    }

    /// Marks the absolute short-/long-term POC sets signalled for a picture.
    pub fn mark_reference_pocs(&mut self, current_poc: i64, layer_id: u8, short_term: &[i64], long_term: &[i64])
        ensures
            final(self).limit() == old(self).limit(),
            final(self).entries().len() == old(self).entries().len(),
            forall|i: int| 0 <= i < old(self).entries().len() ==> #[trigger] final(self).entries()[i] == if old(self).entries()[i].layer_id
                == layer_id && old(self).entries()[i].picture_order_count != current_poc {
                remarked(old(self).entries()[i], poc_set_marking(old(self).entries()[i], short_term@, long_term@))
            } else {
                old(self).entries()[i]
            },
    {
        let mut index: usize = 0;
        while index < self.pictures.len()
            invariant
                self.capacity == old(self).capacity,
                self.pictures@.len() == old(self).pictures@.len(),
                index <= self.pictures@.len(),
                forall|i: int| 0 <= i < self.pictures@.len() ==> #[trigger] self.pictures@[i] == if i < index
                    && old(self).pictures@[i].layer_id == layer_id && old(self).pictures@[i].picture_order_count != current_poc {
                    remarked(old(self).pictures@[i], poc_set_marking(old(self).pictures@[i], short_term@, long_term@))
                } else {
                    old(self).pictures@[i]
                },
            decreases self.pictures@.len() - index,
        {
            if self.pictures[index].layer_id == layer_id && self.pictures[index].picture_order_count != current_poc {
                let poc = self.pictures[index].picture_order_count;
                let marking = if contains_poc(long_term, poc) {
                    PictureMarking::LongTerm
                } else if contains_poc(short_term, poc) {
                    PictureMarking::ShortTerm
                } else {
                    PictureMarking::Unused
                };
                self.pictures[index].marking = marking;
            }
            index += 1;
        }
    }

    /// Returns references with a matching marking and layer, sorted by POC.
    pub fn references(&self, layer_id: u8, marking: PictureMarking) -> (r: Vec<&ReferenceSet>)
        ensures
            r@.len() == sorted_by_poc(matching_entries(self.entries(), layer_id, marking)).len(),
            forall|i: int| 0 <= i < r@.len() ==> *#[trigger] r@[i] == sorted_by_poc(matching_entries(self.entries(), layer_id, marking))[i],
    {
        let ghost all = self.pictures@;
        let ghost keep = |e: ReferenceSet| e.layer_id == layer_id && e.marking == marking;
        let mut result: Vec<&ReferenceSet> = Vec::new();
        let mut index: usize = 0;
        while index < self.pictures.len()
            invariant
                all == self.pictures@,
                keep == (|e: ReferenceSet| e.layer_id == layer_id && e.marking == marking),
                index <= all.len(),
                result@.len() == sorted_by_poc(all.take(index as int).filter(keep)).len(),
                forall|i: int| 0 <= i < result@.len() ==> *#[trigger] result@[i] == sorted_by_poc(all.take(index as int).filter(keep))[i],
            decreases all.len() - index,
        {
            let entry = &self.pictures[index];
            proof {
                assert(all.take(index + 1) == all.take(index as int).push(all[index as int]));
                all.take(index as int).lemma_filter_push(all[index as int], keep);
            }
            if entry.layer_id == layer_id && entry.marking == marking {
                let ghost before = sorted_by_poc(all.take(index as int).filter(keep));
                let mut position = result.len();
                while position > 0 && result[position - 1].picture_order_count > entry.picture_order_count
                    invariant
                        position <= result@.len(),
                        result@.len() == before.len(),
                        forall|i: int| 0 <= i < result@.len() ==> *#[trigger] result@[i] == before[i],
                        forall|j: int| position <= j < before.len() ==> #[trigger] before[j].picture_order_count > entry.picture_order_count,
                    decreases position,
                {
                    position -= 1;
                }
                proof {
                    lemma_insert_by_poc_at(before, *entry, position as int);
                }
                let ghost old_result = result@;
                result.insert(position, entry);
                proof {
                    assert(all.take(index as int).filter(keep).push(all[index as int]).drop_last() == all.take(index as int).filter(keep));
                    assert(sorted_by_poc(all.take(index as int).filter(keep).push(all[index as int])) == insert_by_poc(before, *entry));
                    assert forall|i: int| 0 <= i < result@.len() implies *#[trigger] result@[i] == insert_by_poc(before, *entry)[i] by {
                        if i < position {
                            assert(result@[i] == old_result[i]);
                        } else if i > position {
                            assert(result@[i] == old_result[i - 1]);
                        }
                    }
                }
            }
            index += 1;
        }
        proof {
            assert(all.take(all.len() as int) == all);
        }
        result
    }
}

proof fn lemma_insert_by_poc_at(s: Seq<ReferenceSet>, x: ReferenceSet, p: int)
    requires
        0 <= p <= s.len(),
        p == 0 || s[p - 1].picture_order_count <= x.picture_order_count,
        forall|j: int| p <= j < s.len() ==> #[trigger] s[j].picture_order_count > x.picture_order_count,
    ensures
        insert_by_poc(s, x).len() == s.len() + 1,
        insert_by_poc(s, x) == s.insert(p, x),
    decreases s.len(),
{
    if s.len() == 0 {
        assert(s.insert(0, x) == seq![x]);
    } else if s.last().picture_order_count <= x.picture_order_count {
        assert(p == s.len());
        assert(s.insert(p, x) == s.push(x));
    } else {
        let t = s.drop_last();
        assert(p < s.len());
        lemma_insert_by_poc_at(t, x, p);
        assert(s.insert(p, x) == t.insert(p, x).push(s.last()));
    }
}

fn contains_poc(list: &[i64], poc: i64) -> (r: bool)
    ensures
        r == list@.contains(poc),
{
    let mut index: usize = 0;
    while index < list.len()
        invariant
            index <= list@.len(),
            forall|j: int| 0 <= j < index ==> list@[j] != poc,
        decreases list@.len() - index,
    {
        if list[index] == poc {
            return true;
        }
        index += 1;
    }
    false
}

} // verus!

verus! {

/// The two reference lists constructed by §8.3.4.
#[derive(Clone, Debug, Eq, PartialEq)]
pub struct ReferencePictureLists {
    /// List 0 POC values in reference-index order.
    pub list0: Vec<i64>,
    /// List 1 POC values in reference-index order.
    pub list1: Vec<i64>,
}

/// `RefPicListTemp` of §8.3.4 cut to `n` entries: the candidates `s`
/// repeated cyclically, and nothing when there are no candidates.
pub open spec fn cyclic(s: Seq<i64>, n: int) -> Seq<i64> {
    if s.len() == 0 {
        Seq::empty()
    } else {
        Seq::new(n as nat, |i: int| s[i % (s.len() as int)])
    }
}

fn append_all(target: &mut Vec<i64>, items: &[i64])
    ensures
        final(target)@ == old(target)@ + items@,
{
    let mut index: usize = 0;
    while index < items.len()
        invariant
            index <= items@.len(),
            target@ == old(target)@ + items@.take(index as int),
        decreases items@.len() - index,
    {
        target.push(items[index]);
        proof {
            assert(items@.take(index + 1) == items@.take(index as int).push(items@[index as int]));
        }
        index += 1;
    }
    proof {
        assert(items@.take(items@.len() as int) == items@);
    }
}

/// The first `length` entries of the candidates repeated cyclically.
fn repeat_cyclically(candidates: &Vec<i64>, length: usize) -> (r: Vec<i64>)
    ensures
        r@ == cyclic(candidates@, length as int),
{
    let mut list: Vec<i64> = Vec::new();
    if candidates.len() == 0 {
        return list;
    }
    let mut index: usize = 0;
    while index < length
        invariant
            candidates@.len() > 0,
            index <= length,
            list@ == Seq::new(index as nat, |i: int| candidates@[i % (candidates@.len() as int)]),
        decreases length - index,
    {
        list.push(candidates[index % candidates.len()]);
        index += 1;
    }
    list
}

/// Builds reference lists from the standard's negative/positive short-term
/// POC lists and long-term entries as §8.3.4 does without list modification:
/// list 0 repeats `negative, positive, long_term` and list 1 repeats
/// `positive, negative, long_term` cyclically until each has its active
/// length.  The returned values are POC values; a caller maps them to DPB
/// entries, preserving the signalled list order.
pub fn build_reference_picture_lists(current_poc: i64, negative: &[i64], positive: &[i64], long_term: &[i64], list0_length: usize, list1_length: usize) -> (r: ReferencePictureLists)
    ensures
        r.list0@ == cyclic(negative@ + positive@ + long_term@, list0_length as int),
        r.list1@ == cyclic(positive@ + negative@ + long_term@, list1_length as int),
{
    let mut candidates0: Vec<i64> = Vec::new();
    append_all(&mut candidates0, negative);
    append_all(&mut candidates0, positive);
    append_all(&mut candidates0, long_term);
    let mut candidates1: Vec<i64> = Vec::new();
    append_all(&mut candidates1, positive);
    append_all(&mut candidates1, negative);
    append_all(&mut candidates1, long_term);
    let _ = current_poc;
    let list0 = repeat_cyclically(&candidates0, list0_length);
    let list1 = repeat_cyclically(&candidates1, list1_length);
    ReferencePictureLists { list0, list1 }
}

/// Derives the collocated picture and `NoBackwardPredFlag` (§8.3.5).
pub fn derive_collocated_picture_and_no_backward_prediction_flag(current_poc: i64, is_b_slice: bool, collocated_from_l0: bool, collocated_ref_idx: usize, list0: &[i64], list1: &[i64]) -> (r: Option<(i64, bool)>)
    ensures
        ({
            let collocated_list = if collocated_from_l0 { list0@ } else { list1@ };
            r == if collocated_ref_idx < collocated_list.len() {
                Some((
                    collocated_list[collocated_ref_idx as int],
                    is_b_slice && forall|j: int| 0 <= j < list1@.len() ==> #[trigger] list1@[j] <= current_poc,
                ))
            } else {
                None
            }
        }),
{
    let collocated_list = if collocated_from_l0 { list0 } else { list1 };
    if collocated_ref_idx >= collocated_list.len() {
        return None;
    }
    let collocated = collocated_list[collocated_ref_idx];
    let mut all_before = true;
    let mut index: usize = 0;
    while index < list1.len()
        invariant
            index <= list1@.len(),
            all_before == forall|j: int| 0 <= j < index ==> #[trigger] list1@[j] <= current_poc,
        decreases list1@.len() - index,
    {
        if list1[index] > current_poc {
            all_before = false;
        }
        index += 1;
    }
    Some((collocated, is_b_slice && all_before))
}

/// The plane that an unavailable picture of `format` holds for component `index`.
pub open spec fn unavailable_plane_ok(format: PictureFormat, index: int, value: i32, plane: Option<SamplePlane>) -> bool {
    match component_dimension_spec(format, index) {
        None => plane is None,
        Some(d) => plane matches Some(p) && p.w() == d.width && p.h() == d.height
            && p.data() == Seq::new(plane_len(d.width, d.height), |i: int| value),
    }
}

/// Creates an unavailable reference picture by copying the nearest available
/// sample value, as specified by §8.3.3.2.
pub fn generate_unavailable_picture(format: PictureFormat, value: i32) -> (r: DecodedPicture)
    ensures
        r.wf(),
        r.fmt() == format,
        forall|i: int| 0 <= i < 3 ==> unavailable_plane_ok(format, i, value, #[trigger] r.planes_spec()[i]),
{
    let mut picture = DecodedPicture::new(format);
    let count = format.component_count();
    let mut component: usize = 0;
    while component < count
        invariant
            picture.wf(),
            picture.fmt() == format,
            count == crate::format::component_count_spec(format),
            count <= 3,
            component <= count,
            forall|i: int| 0 <= i < component ==> unavailable_plane_ok(format, i, value, #[trigger] picture.planes_spec()[i]),
            forall|i: int| component <= i < 3 ==> crate::decoding::picture::initial_plane_ok(format, i, #[trigger] picture.planes_spec()[i]),
        decreases count - component,
    {
        if let Some(dimension) = format.component_dimension(component) {
            let _ = picture.set_plane(component, SamplePlane::new(dimension.width, dimension.height, value));
        }
        component += 1;
    }
    picture
}

} // verus!

verus! {

/// `DeltaPocS0[k - 1]`: minus the sum of `delta_poc_s0_minus1[j] + 1` for `j < k`.
pub open spec fn negative_delta(rps: ShortTermReferencePictureSet, k: int) -> int
    decreases k,
{
    if k <= 0 {
        0
    } else {
        negative_delta(rps, k - 1) - ((rps.delta_poc_s0_minus1@[k - 1] as i64) + 1)
    }
}

/// `DeltaPocS1[k - 1]`: the sum of `delta_poc_s1_minus1[j] + 1` for `j < k`.
pub open spec fn positive_delta(rps: ShortTermReferencePictureSet, k: int) -> int
    decreases k,
{
    if k <= 0 {
        0
    } else {
        positive_delta(rps, k - 1) + ((rps.delta_poc_s1_minus1@[k - 1] as i64) + 1)
    }
}

/// The POCs `current + DeltaPocS0[j]`, `j < k`, whose used flag equals `used`.
pub open spec fn negative_pocs(rps: ShortTermReferencePictureSet, current: i64, k: int, used: bool) -> Seq<i64>
    decreases k,
{
    if k <= 0 {
        Seq::empty()
    } else if rps.used_by_curr_pic_s0_flag@[k - 1] == used {
        negative_pocs(rps, current, k - 1, used).push((current + negative_delta(rps, k)) as i64)
    } else {
        negative_pocs(rps, current, k - 1, used)
    }
}

/// The POCs `current + DeltaPocS1[j]`, `j < k`, whose used flag equals `used`.
pub open spec fn positive_pocs(rps: ShortTermReferencePictureSet, current: i64, k: int, used: bool) -> Seq<i64>
    decreases k,
{
    if k <= 0 {
        Seq::empty()
    } else if rps.used_by_curr_pic_s1_flag@[k - 1] == used {
        positive_pocs(rps, current, k - 1, used).push((current + positive_delta(rps, k)) as i64)
    } else {
        positive_pocs(rps, current, k - 1, used)
    }
}

/// The `(StCurrBefore, StCurrAfter, StFoll)` POC lists of a directly coded set;
/// empty when the set is inter-predicted.
pub open spec fn direct_reference_set(current: i64, rps: ShortTermReferencePictureSet) -> (Seq<i64>, Seq<i64>, Seq<i64>) {
    match (rps.num_negative_pics, rps.num_positive_pics) {
        (Some(n0), Some(n1)) => (
            negative_pocs(rps, current, n0 as int, true),
            positive_pocs(rps, current, n1 as int, true),
            negative_pocs(rps, current, n0 as int, false) + positive_pocs(rps, current, n1 as int, false),
        ),
        _ => (Seq::empty(), Seq::empty(), Seq::empty()),
    }
}

/// The directly coded set's lists are computable: its entries exist and
/// every delta and POC fits `i64`.
pub open spec fn direct_set_derivable(current: i64, rps: ShortTermReferencePictureSet) -> bool {
    match (rps.num_negative_pics, rps.num_positive_pics) {
        (Some(n0), Some(n1)) => {
            &&& n0 <= rps.delta_poc_s0_minus1@.len() && n0 <= rps.used_by_curr_pic_s0_flag@.len()
            &&& n1 <= rps.delta_poc_s1_minus1@.len() && n1 <= rps.used_by_curr_pic_s1_flag@.len()
            &&& forall|k: int| 0 <= k < n0 ==> (#[trigger] rps.delta_poc_s0_minus1@[k] as i64) < i64::MAX
            &&& forall|k: int| 0 <= k < n1 ==> (#[trigger] rps.delta_poc_s1_minus1@[k] as i64) < i64::MAX
            &&& forall|k: int| 1 <= k <= n0 ==> i64::MIN <= #[trigger] negative_delta(rps, k) <= i64::MAX && i64::MIN <= current
                + negative_delta(rps, k) <= i64::MAX
            &&& forall|k: int| 1 <= k <= n1 ==> i64::MIN <= #[trigger] positive_delta(rps, k) <= i64::MAX && i64::MIN <= current
                + positive_delta(rps, k) <= i64::MAX
        },
        _ => true,
    }
}

/// Derives the five POC lists from a directly coded short-term RPS.
pub fn derive_reference_set(current_poc: i64, rps: &ShortTermReferencePictureSet) -> (r: (Vec<i64>, Vec<i64>, Vec<i64>))
    requires
        direct_set_derivable(current_poc, *rps),
    ensures
        (r.0@, r.1@, r.2@) == direct_reference_set(current_poc, *rps),
{
    let mut negative: Vec<i64> = Vec::new();
    let mut positive: Vec<i64> = Vec::new();
    let mut following: Vec<i64> = Vec::new();
    match (rps.num_negative_pics, rps.num_positive_pics) {
        (Some(negative_count), Some(positive_count)) => {
            let mut delta: i64 = 0;
            let mut index: usize = 0;
            while (index as u64) < negative_count
                invariant
                    direct_set_derivable(current_poc, *rps),
                    rps.num_negative_pics == Some(negative_count),
                    rps.num_positive_pics == Some(positive_count),
                    index <= negative_count,
                    delta == negative_delta(*rps, index as int),
                    negative@ == negative_pocs(*rps, current_poc, index as int, true),
                    following@ == negative_pocs(*rps, current_poc, index as int, false),
                    positive@ == Seq::<i64>::empty(),
                decreases negative_count - index,
            {
                assert(i64::MIN <= negative_delta(*rps, index + 1) <= i64::MAX);
                let stored = rps.delta_poc_s0_minus1.len();
                let d = rps.delta_poc_s0_minus1[index] as i64;
                assert(d < i64::MAX);
                assert(negative_delta(*rps, index + 1) == negative_delta(*rps, index as int) - (d + 1));
                delta = delta - (d + 1);
                if rps.used_by_curr_pic_s0_flag[index] {
                    negative.push(current_poc + delta);
                } else {
                    following.push(current_poc + delta);
                }
                index += 1;
            }
            let ghost before_positive = following@;
            delta = 0;
            let mut index: usize = 0;
            while (index as u64) < positive_count
                invariant
                    direct_set_derivable(current_poc, *rps),
                    rps.num_negative_pics == Some(negative_count),
                    rps.num_positive_pics == Some(positive_count),
                    index <= positive_count,
                    delta == positive_delta(*rps, index as int),
                    negative@ == negative_pocs(*rps, current_poc, negative_count as int, true),
                    before_positive == negative_pocs(*rps, current_poc, negative_count as int, false),
                    following@ == before_positive + positive_pocs(*rps, current_poc, index as int, false),
                    positive@ == positive_pocs(*rps, current_poc, index as int, true),
                decreases positive_count - index,
            {
                assert(i64::MIN <= positive_delta(*rps, index + 1) <= i64::MAX);
                let stored = rps.delta_poc_s1_minus1.len();
                let d = rps.delta_poc_s1_minus1[index] as i64;
                assert(d < i64::MAX);
                assert(positive_delta(*rps, index + 1) == positive_delta(*rps, index as int) + (d + 1));
                delta = delta + (d + 1);
                let ghost prior_following = following@;
                if rps.used_by_curr_pic_s1_flag[index] {
                    positive.push(current_poc + delta);
                } else {
                    following.push(current_poc + delta);
                    assert(before_positive + positive_pocs(*rps, current_poc, index + 1, false) == (before_positive
                        + positive_pocs(*rps, current_poc, index as int, false)).push((current_poc + delta) as i64));
                }
                index += 1;
            }
        },
        _ => {},
    }
    (negative, positive, following)
}

} // verus!

verus! {

/// `deltaRps` of an inter-predicted set: `(1 - 2 * delta_rps_sign) * (abs_delta_rps_minus1 + 1)`.
pub open spec fn delta_rps(rps: ShortTermReferencePictureSet) -> int {
    let magnitude = (match rps.abs_delta_rps_minus1 {
        Some(v) => v,
        None => 0,
    } as i64) + 1;
    if rps.delta_rps_sign == Some(true) {
        -magnitude
    } else {
        magnitude
    }
}

/// All POCs of a reference set's three lists, in list order.
pub open spec fn all_pocs(base: (Seq<i64>, Seq<i64>, Seq<i64>)) -> Seq<i64> {
    base.0 + base.1 + base.2
}

/// The POC that candidate `idx` of an inter-predicted set designates: entry
/// `idx` of the reference set shifted by `deltaRps` (7-61), or, for
/// `idx == NumDeltaPocs[RefRpsIdx]`, the reference picture itself at
/// `deltaRps`.
pub open spec fn candidate_poc(current: i64, base: (Seq<i64>, Seq<i64>, Seq<i64>), rps: ShortTermReferencePictureSet, idx: int) -> int {
    if idx == all_pocs(base).len() {
        current + delta_rps(rps)
    } else {
        all_pocs(base)[idx] + delta_rps(rps)
    }
}

/// Flag `i` of `flags`, false past its end.
pub open spec fn flag_or_false(flags: Seq<bool>, i: int) -> bool {
    0 <= i < flags.len() && flags[i]
}

/// Candidate index visited at step `p` of the `S0` pass of 7-61: the
/// reference set's positive entries from the last, then `deltaRps`, then its
/// negative entries, then its remaining entries.
pub open spec fn s0_index(n0: int, n1: int, p: int) -> int {
    if p < n1 {
        n0 + n1 - 1 - p
    } else if p == n1 {
        -1
    } else if p < n1 + 1 + n0 {
        p - n1 - 1
    } else {
        p - 1
    }
}

/// Candidate index visited at step `p` of the `S1` pass of 7-61: the
/// reference set's negative entries from the last, then `deltaRps`, then its
/// positive entries, then its remaining entries.
pub open spec fn s1_index(n0: int, p: int) -> int {
    if p < n0 {
        n0 - 1 - p
    } else if p == n0 {
        -1
    } else {
        p - 1
    }
}

/// Resolves the `deltaRps` marker `-1` to `NumDeltaPocs[RefRpsIdx]`.
pub open spec fn resolve_index(base: (Seq<i64>, Seq<i64>, Seq<i64>), idx: int) -> int {
    if idx < 0 {
        all_pocs(base).len() as int
    } else {
        idx
    }
}

/// Candidate index at step `p` of the `S0` (`!s1`) or `S1` pass.
pub open spec fn pass_index(base: (Seq<i64>, Seq<i64>, Seq<i64>), s1: bool, p: int) -> int {
    resolve_index(base, if s1 { s1_index(base.0.len() as int, p) } else { s0_index(base.0.len() as int, base.1.len() as int, p) })
}

/// The first `k` steps of the `S0` or `S1` pass of 7-61: candidates on the
/// pass's side of the current picture that are kept go to the first list
/// when used by the current picture, otherwise to the second.
pub open spec fn pass_lists(current: i64, base: (Seq<i64>, Seq<i64>, Seq<i64>), rps: ShortTermReferencePictureSet, s1: bool, k: int) -> (Seq<i64>, Seq<i64>)
    decreases k,
{
    if k <= 0 {
        (Seq::empty(), Seq::empty())
    } else {
        let (first, second) = pass_lists(current, base, rps, s1, k - 1);
        let idx = pass_index(base, s1, k - 1);
        let poc = candidate_poc(current, base, rps, idx);
        let used = flag_or_false(rps.used_by_curr_pic_flag@, idx);
        let kept = used || flag_or_false(rps.use_delta_flag@, idx);
        let side = if s1 { poc > current } else { poc < current };
        if kept && side {
            if used {
                (first.push(poc as i64), second)
            } else {
                (first, second.push(poc as i64))
            }
        } else {
            (first, second)
        }
    }
}

/// Used candidates among the first `k` that designate the current POC
/// itself; they are kept in the following list.
pub open spec fn zero_candidates(current: i64, base: (Seq<i64>, Seq<i64>, Seq<i64>), rps: ShortTermReferencePictureSet, k: int) -> Seq<i64>
    decreases k,
{
    if k <= 0 {
        Seq::empty()
    } else {
        let rest = zero_candidates(current, base, rps, k - 1);
        if flag_or_false(rps.used_by_curr_pic_flag@, k - 1) && candidate_poc(current, base, rps, k - 1) == current {
            rest.push(current)
        } else {
            rest
        }
    }
}

/// The lists of an inter-predicted set given its reference set's lists
/// (7-61): the negative list in `S0` order, the positive list in `S1` order,
/// and the kept but unused candidates.
pub open spec fn predicted_reference_set(current: i64, base: (Seq<i64>, Seq<i64>, Seq<i64>), rps: ShortTermReferencePictureSet) -> (Seq<i64>, Seq<i64>, Seq<i64>) {
    let count = all_pocs(base).len() + 1int;
    let s0 = pass_lists(current, base, rps, false, count);
    let s1 = pass_lists(current, base, rps, true, count);
    (s0.0, s1.0, s0.1 + s1.1 + zero_candidates(current, base, rps, count))
}

/// Every inter-predicted set refers to an earlier set.
pub open spec fn references_point_back(sets: Seq<ShortTermReferencePictureSet>) -> bool {
    forall|i: int|
        0 <= i < sets.len() && (#[trigger] sets[i]).num_negative_pics is None ==> (sets[i].reference_rps_idx matches Some(r) ==> r < i)
}

/// The lists of set `index` of `sets` (§8.3.2), or `None` when it or the set
/// it predicts from is missing.
pub open spec fn reference_set_of(current: i64, sets: Seq<ShortTermReferencePictureSet>, index: int) -> Option<(Seq<i64>, Seq<i64>, Seq<i64>)>
    decreases index,
{
    if index < 0 || index >= sets.len() {
        None
    } else if sets[index].num_negative_pics is Some {
        Some(direct_reference_set(current, sets[index]))
    } else {
        match sets[index].reference_rps_idx {
            None => None,
            Some(r) => if r >= sets.len() {
                None
            } else {
                let base = if sets[r as int].num_negative_pics is Some {
                    Some(direct_reference_set(current, sets[r as int]))
                } else if r < index {
                    reference_set_of(current, sets, r as int)
                } else {
                    None
                };
                match base {
                    None => None,
                    Some(b) => Some(predicted_reference_set(current, b, sets[index])),
                }
            },
        }
    }
}

/// The lists of set `index` can be computed within `i64`.
pub open spec fn reference_set_derivable(current: i64, sets: Seq<ShortTermReferencePictureSet>, index: int) -> bool
    decreases index,
{
    if index < 0 || index >= sets.len() {
        true
    } else if sets[index].num_negative_pics is Some {
        direct_set_derivable(current, sets[index])
    } else {
        match sets[index].reference_rps_idx {
            None => true,
            Some(r) => r >= sets.len() || {
                let base_ok = if sets[r as int].num_negative_pics is Some {
                    direct_set_derivable(current, sets[r as int])
                } else if r < index {
                    reference_set_derivable(current, sets, r as int)
                } else {
                    true
                };
                let base = if sets[r as int].num_negative_pics is Some {
                    Some(direct_reference_set(current, sets[r as int]))
                } else if r < index {
                    reference_set_of(current, sets, r as int)
                } else {
                    None
                };
                &&& base_ok
                &&& (match sets[index].abs_delta_rps_minus1 {
                    Some(v) => v,
                    None => 0,
                } as i64) < i64::MAX
                &&& i64::MIN <= current + delta_rps(sets[index]) <= i64::MAX
                &&& base matches Some(b) ==> lists_shift_fit(delta_rps(sets[index]), b)
            },
        }
    }
}

/// Every POC of the three lists shifted by `delta` stays within `i64`.
pub open spec fn lists_shift_fit(delta: int, lists: (Seq<i64>, Seq<i64>, Seq<i64>)) -> bool {
    forall|k: int| 0 <= k < all_pocs(lists).len() ==> i64::MIN <= #[trigger] all_pocs(lists)[k] + delta <= i64::MAX
}

/// Candidate index of step `p` of a pass, as `pass_index` states.
fn pass_index_exec(n0: usize, n1: usize, total: usize, s1: bool, p: usize) -> (idx: usize)
    requires
        total >= n0 + n1,
        p <= total,
    ensures
        idx == pass_index((Seq::new(n0 as nat, |i: int| 0i64), Seq::new(n1 as nat, |i: int| 0i64), Seq::new((total - n0 - n1) as nat, |i: int| 0i64)), s1, p as int),
        idx <= total,
{
    let ghost base = (Seq::new(n0 as nat, |i: int| 0i64), Seq::new(n1 as nat, |i: int| 0i64), Seq::new((total - n0 - n1) as nat, |i: int| 0i64));
    assert(all_pocs(base).len() == total);
    if s1 {
        if p < n0 {
            n0 - 1 - p
        } else if p == n0 {
            total
        } else {
            p - 1
        }
    } else {
        if p < n1 {
            n0 + n1 - 1 - p
        } else if p == n1 {
            total
        } else if p - n1 - 1 < n0 {
            p - n1 - 1
        } else {
            p - 1
        }
    }
}

/// Runs one pass of 7-61 over all candidates, appending to `first` and
/// `second` as `pass_lists` states.
fn run_pass(
    current: i64,
    base: Ghost<(Seq<i64>, Seq<i64>, Seq<i64>)>,
    all: &Vec<i64>,
    n0: usize,
    n1: usize,
    rps: &ShortTermReferencePictureSet,
    delta_value: i64,
    s1: bool,
) -> (r: (Vec<i64>, Vec<i64>))
    requires
        all@ == all_pocs(base@),
        n0 == base@.0.len(),
        n1 == base@.1.len(),
        delta_value == delta_rps(*rps),
        i64::MIN <= current + delta_value <= i64::MAX,
        lists_shift_fit(delta_value as int, base@),
    ensures
        (r.0@, r.1@) == pass_lists(current, base@, *rps, s1, all@.len() + 1int),
{
    let total = all.len();
    let mut first: Vec<i64> = Vec::new();
    let mut second: Vec<i64> = Vec::new();
    let mut p: usize = 0;
    loop
        invariant_except_break
            (first@, second@) == pass_lists(current, base@, *rps, s1, p as int),
        invariant
            all@ == all_pocs(base@),
            total == all@.len(),
            n0 == base@.0.len(),
            n1 == base@.1.len(),
            delta_value == delta_rps(*rps),
            i64::MIN <= current + delta_value <= i64::MAX,
            lists_shift_fit(delta_value as int, base@),
            p <= total,
        ensures
            (first@, second@) == pass_lists(current, base@, *rps, s1, total + 1int),
        decreases total - p,
    {
        let idx = pass_index_exec(n0, n1, total, s1, p);
        proof {
            let shape = (Seq::new(n0 as nat, |i: int| 0i64), Seq::new(n1 as nat, |i: int| 0i64), Seq::new((total - n0 - n1) as nat, |i: int| 0i64));
            assert(all_pocs(shape).len() == all_pocs(base@).len());
            assert(pass_index(shape, s1, p as int) == pass_index(base@, s1, p as int));
        }
        let poc: i64 = if idx == total {
            current + delta_value
        } else {
            proof {
                assert(i64::MIN <= all_pocs(base@)[idx as int] + delta_value <= i64::MAX);
            }
            all[idx] + delta_value
        };
        assert(poc == candidate_poc(current, base@, *rps, idx as int));
        let used = idx < rps.used_by_curr_pic_flag.len() && rps.used_by_curr_pic_flag[idx];
        let kept = used || (idx < rps.use_delta_flag.len() && rps.use_delta_flag[idx]);
        let side = if s1 { poc > current } else { poc < current };
        if kept && side {
            if used {
                first.push(poc);
            } else {
                second.push(poc);
            }
        }
        if p == total {
            break;
        }
        p += 1;
    }
    (first, second)
}

/// Collects the used candidates that designate the current POC itself.
fn collect_zero_candidates(
    current: i64,
    base: Ghost<(Seq<i64>, Seq<i64>, Seq<i64>)>,
    all: &Vec<i64>,
    rps: &ShortTermReferencePictureSet,
    delta_value: i64,
) -> (r: Vec<i64>)
    requires
        all@ == all_pocs(base@),
        delta_value == delta_rps(*rps),
        i64::MIN <= current + delta_value <= i64::MAX,
        lists_shift_fit(delta_value as int, base@),
    ensures
        r@ == zero_candidates(current, base@, *rps, all@.len() + 1int),
{
    let total = all.len();
    let mut out: Vec<i64> = Vec::new();
    let mut k: usize = 0;
    loop
        invariant_except_break
            out@ == zero_candidates(current, base@, *rps, k as int),
        invariant
            all@ == all_pocs(base@),
            total == all@.len(),
            delta_value == delta_rps(*rps),
            i64::MIN <= current + delta_value <= i64::MAX,
            lists_shift_fit(delta_value as int, base@),
            k <= total,
        ensures
            out@ == zero_candidates(current, base@, *rps, total + 1int),
        decreases total - k,
    {
        let poc: i64 = if k == total {
            current + delta_value
        } else {
            proof {
                assert(i64::MIN <= all_pocs(base@)[k as int] + delta_value <= i64::MAX);
            }
            all[k] + delta_value
        };
        let used = k < rps.used_by_curr_pic_flag.len() && rps.used_by_curr_pic_flag[k];
        if used && poc == current {
            out.push(current);
        }
        if k == total {
            break;
        }
        k += 1;
    }
    out
}

/// Derives the short-term current/following POC lists for an SPS RPS or an
/// inter-predicted RPS (§8.3.2).  The result preserves the negative-before and
/// positive-after ordering required by reference-list construction.
pub fn derive_reference_set_from_sets(current_poc: i64, sets: &[ShortTermReferencePictureSet], index: usize) -> (r: Option<(Vec<i64>, Vec<i64>, Vec<i64>)>)
    requires
        references_point_back(sets@),
        reference_set_derivable(current_poc, sets@, index as int),
    ensures
        match r {
            Some((negative, positive, following)) => reference_set_of(current_poc, sets@, index as int) == Some((negative@, positive@, following@)),
            None => reference_set_of(current_poc, sets@, index as int) is None,
        },
    decreases index,
{
    if index >= sets.len() {
        return None;
    }
    let rps = &sets[index];
    if rps.num_negative_pics.is_some() {
        return Some(derive_reference_set(current_poc, rps));
    }
    let reference_index = match rps.reference_rps_idx {
        Some(r) => r,
        None => return None,
    };
    if reference_index >= sets.len() {
        return None;
    }
    let reference = &sets[reference_index];
    let (reference_negative, reference_positive, reference_following) = if reference.num_negative_pics.is_some() {
        derive_reference_set(current_poc, reference)
    } else {
        assert((sets@[index as int]).num_negative_pics is None);
        match derive_reference_set_from_sets(current_poc, sets, reference_index) {
            Some(lists) => lists,
            None => return None,
        }
    };
    let ghost base = (reference_negative@, reference_positive@, reference_following@);
    let mut all: Vec<i64> = Vec::new();
    append_all(&mut all, reference_negative.as_slice());
    append_all(&mut all, reference_positive.as_slice());
    append_all(&mut all, reference_following.as_slice());
    assert(all@ == all_pocs(base));
    let magnitude = match rps.abs_delta_rps_minus1 {
        Some(v) => v,
        None => 0,
    } as i64 + 1;
    let delta_value = if rps.delta_rps_sign == Some(true) { -magnitude } else { magnitude };
    let (negative, following_before) = run_pass(current_poc, Ghost(base), &all, reference_negative.len(), reference_positive.len(), rps, delta_value, false);
    let (positive, following_after) = run_pass(current_poc, Ghost(base), &all, reference_negative.len(), reference_positive.len(), rps, delta_value, true);
    let zero = collect_zero_candidates(current_poc, Ghost(base), &all, rps, delta_value);
    let mut following: Vec<i64> = Vec::new();
    append_all(&mut following, following_before.as_slice());
    append_all(&mut following, following_after.as_slice());
    append_all(&mut following, zero.as_slice());
    Some((negative, positive, following))
}

/// Extracts a slice-created short-term RPS from the slice syntax.
pub fn slice_short_term_reference_set(slice: &SliceReferencePictureSet) -> (r: Option<&ShortTermReferencePictureSet>)
    ensures
        r is Some <==> slice.short_term_ref_pic_set is Some,
        r matches Some(set) ==> *set == slice.short_term_ref_pic_set.unwrap(),
{
    match &slice.short_term_ref_pic_set {
        Some(set) => Some(set),
        None => None,
    }
}

} // verus!

verus! {

proof fn lemma_minimal_evictable(pictures: Seq<ReferenceSet>, k: int)
    requires
        0 <= k <= pictures.len(),
        forall|j: int| 0 <= j < k ==> !evictable(#[trigger] pictures[j]),
        exists|i: int| 0 <= i < pictures.len() && evictable(#[trigger] pictures[i]),
    ensures
        exists|i: int| 0 <= i < pictures.len() && evictable(#[trigger] pictures[i]) && forall|j: int| 0 <= j < i ==> !evictable(#[trigger] pictures[j]),
    decreases pictures.len() - k,
{
    if k < pictures.len() {
        if evictable(pictures[k]) {
            assert(0 <= k < pictures.len() && evictable(pictures[k]) && forall|j: int| 0 <= j < k ==> !evictable(#[trigger] pictures[j]));
        } else {
            lemma_minimal_evictable(pictures, k + 1);
        }
    }
}

/// `first_evictable` names the first entry that is unused and not needed
/// for output, and is `None` exactly when there is none.
pub proof fn lemma_first_evictable(pictures: Seq<ReferenceSet>)
    ensures
        first_evictable(pictures) matches Some(i) ==> 0 <= i < pictures.len() && evictable(pictures[i]) && forall|j: int|
            0 <= j < i ==> !evictable(#[trigger] pictures[j]),
        first_evictable(pictures) is None ==> forall|j: int| 0 <= j < pictures.len() ==> !evictable(#[trigger] pictures[j]),
{
    if exists|i: int| 0 <= i < pictures.len() && evictable(#[trigger] pictures[i]) {
        lemma_minimal_evictable(pictures, 0);
    }
}

/// Law: inserting a picture into a buffer of capacity `capacity > 0` that
/// holds at most `capacity` pictures leaves `min(len + 1, capacity)`
/// pictures with the new one last. Below capacity nothing else changes; at
/// capacity exactly one earlier picture leaves, the first that is unused and
/// not needed for output, or the oldest when there is none, and the others
/// keep their order.
pub proof fn lemma_insert_law(pictures: Seq<ReferenceSet>, capacity: int, picture: ReferenceSet)
    requires
        0 < capacity,
        pictures.len() <= capacity,
    ensures
        ({
            let r = inserted(pictures, capacity, picture);
            &&& r.len() == if pictures.len() < capacity { pictures.len() + 1int } else { capacity }
            &&& r.last() == picture
            &&& pictures.len() < capacity ==> r.drop_last() == pictures
            &&& pictures.len() == capacity ==> exists|i: int|
                0 <= i < pictures.len() && r.drop_last() == pictures.remove(i) && ((evictable(pictures[i]) && forall|j: int|
                    0 <= j < i ==> !evictable(#[trigger] pictures[j])) || (i == 0 && forall|j: int|
                    0 <= j < pictures.len() ==> !evictable(#[trigger] pictures[j])))
        }),
{
    lemma_first_evictable(pictures);
    let r = inserted(pictures, capacity, picture);
    if pictures.len() < capacity {
        assert(r.drop_last() =~= pictures);
    } else {
        match first_evictable(pictures) {
            Some(i) => {
                assert(r.drop_last() =~= pictures.remove(i));
            },
            None => {
                assert(r.drop_last() =~= pictures.remove(0));
            },
        }
    }
}

} // verus!
