//! A register of segments, by id.
use crate::delete_queue::DeleteCursor;
use crate::segment_entry::{self, SegmentEntry, SegmentEntryView};
use crate::segment_meta::{SegmentId, SegmentMeta};
use std::collections::{HashMap, HashSet};
use vstd::prelude::*;

verus! {

broadcast use vstd::std_specs::hash::group_hash_axioms;

/// The segments of an index or of a part of it, by id.
pub type Segments = Map<SegmentId, SegmentEntryView>;

/// Every entry stands under its own id.
pub open spec fn segments_wf(segments: Segments) -> bool {
    &&& segments.dom().finite()
    &&& forall|id: SegmentId| #[trigger] segments.contains_key(id) ==> segments[id].id() == id
}

/// The metadata of every segment is sound.
pub open spec fn metas_wf(segments: Segments) -> bool {
    forall|id: SegmentId| #[trigger] segments.contains_key(id) ==> segments[id].meta.wf()
}

/// Every one of `ids` names a segment.
pub open spec fn holds_all(segments: Segments, ids: Seq<SegmentId>) -> bool {
    forall|i: int| 0 <= i < ids.len() ==> segments.contains_key(#[trigger] ids[i])
}

/// What each of the entries stands for.
pub open spec fn entry_views(entries: Seq<SegmentEntry>) -> Seq<SegmentEntryView> {
    entries.map_values(|entry: SegmentEntry| entry@)
}

/// `entries` holds every entry of `segments` once, in some order.
pub open spec fn lists(entries: Seq<SegmentEntryView>, segments: Segments) -> bool {
    &&& entries.len() == segments.dom().len()
    &&& forall|i: int|
        0 <= i < entries.len() ==> segments.contains_key((#[trigger] entries[i]).id())
            && segments[entries[i].id()] == entries[i]
    &&& forall|i: int, j: int|
        0 <= i < j < entries.len() ==> (#[trigger] entries[i]).id() != (#[trigger] entries[j]).id()
    &&& forall|id: SegmentId| #[trigger]
        segments.contains_key(id) ==> exists|i: int|
            0 <= i < entries.len() && (#[trigger] entries[i]).id() == id
}

/// `metas` holds the metadata of every entry of `segments` once, in some order.
pub open spec fn lists_metas(metas: Seq<SegmentMeta>, segments: Segments) -> bool {
    &&& metas.len() == segments.dom().len()
    &&& forall|i: int|
        0 <= i < metas.len() ==> segments.contains_key((#[trigger] metas[i]).segment_id)
            && segments[metas[i].segment_id].meta == metas[i]
    &&& forall|i: int, j: int|
        0 <= i < j < metas.len() ==> (#[trigger] metas[i]).segment_id != (
        #[trigger] metas[j]).segment_id
    &&& forall|id: SegmentId| #[trigger]
        segments.contains_key(id) ==> exists|i: int|
            0 <= i < metas.len() && (#[trigger] metas[i]).segment_id == id
}

/// The ids of `metas` increase.
pub open spec fn sorted_by_id(metas: Seq<SegmentMeta>) -> bool {
    forall|i: int, j: int|
        0 <= i < j < metas.len() ==> (#[trigger] metas[i]).segment_id < (
        #[trigger] metas[j]).segment_id
}

/// The register that `entries` fill, one after the other: of two with one id the later stays.
pub open spec fn filled_with(entries: Seq<SegmentEntryView>) -> Segments
    decreases entries.len(),
{
    if entries.len() == 0 {
        Map::empty()
    } else {
        filled_with(entries.drop_last()).insert(entries.last().id(), entries.last())
    }
}

/// The entries of segments that were just found in the metadata of an index.
pub open spec fn fresh_entries(metas: Seq<SegmentMeta>, cursor: DeleteCursor) -> Seq<
    SegmentEntryView,
> {
    metas.map_values(|meta: SegmentMeta| segment_entry::entry_of(meta, cursor, None))
}

/// Holds the entry of each segment, under the segment's id.
#[derive(Debug)]
pub struct SegmentRegister {
    segment_states: HashMap<SegmentId, SegmentEntry>,
}

impl View for SegmentRegister {
    type V = Segments;

    closed spec fn view(&self) -> Segments {
        self.segment_states@.map_values(|entry: SegmentEntry| entry@)
    }
}

impl Default for SegmentRegister {
    fn default() -> (register: Self)
        ensures
            register@ == Map::<SegmentId, SegmentEntryView>::empty(),
    {
        let register = SegmentRegister { segment_states: HashMap::new() };
        assert(register@ =~= Map::<SegmentId, SegmentEntryView>::empty());
        register
    }
}

impl SegmentRegister {
    /// Registers segments found in the metadata of an index, all at one position of the delete
    /// queue.
    pub fn new(segment_metas: Vec<SegmentMeta>, delete_cursor: &DeleteCursor) -> (register: Self)
        ensures
            register@ == filled_with(fresh_entries(segment_metas@, *delete_cursor)),
    {
        let mut register = SegmentRegister::default();
        let ghost fresh = fresh_entries(segment_metas@, *delete_cursor);
        let mut i: usize = 0;
        while i < segment_metas.len()
            invariant
                i <= segment_metas.len(),
                fresh == fresh_entries(segment_metas@, *delete_cursor),
                register@ == filled_with(fresh.take(i as int)),
            decreases segment_metas.len() - i,
        {
            let entry = SegmentEntry::new(segment_metas[i], *delete_cursor, None);
            proof {
                assert(fresh.take(i + 1).drop_last() =~= fresh.take(i as int));
                assert(fresh.take(i + 1).last() == entry@);
            }
            register.add_segment_entry(entry);
            i = i + 1;
        }
        assert(fresh.take(i as int) =~= fresh);
        register
    }

    /// Forgets every segment.
    pub fn clear(&mut self)
        ensures
            final(self)@ == Map::<SegmentId, SegmentEntryView>::empty(),
    {
        self.segment_states.clear();
        assert(self@ =~= Map::<SegmentId, SegmentEntryView>::empty());
    }

    /// Registers a segment. An entry that stood under its id is replaced.
    pub fn add_segment_entry(&mut self, segment_entry: SegmentEntry)
        ensures
            final(self)@ == old(self)@.insert(segment_entry@.id(), segment_entry@),
    {
        let id = segment_entry.segment_id();
        self.segment_states.insert(id, segment_entry);
        assert(self@ =~= old(self)@.insert(segment_entry@.id(), segment_entry@));
    }

    /// Forgets a segment, if it is registered.
    pub fn remove_segment(&mut self, segment_id: &SegmentId)
        ensures
            final(self)@ == old(self)@.remove(*segment_id),
    {
        self.segment_states.remove(segment_id);
        assert(self@ =~= old(self)@.remove(*segment_id));
    }

    /// The entry of a segment, if it is registered.
    pub fn get(&self, segment_id: &SegmentId) -> (entry: Option<SegmentEntry>)
        ensures
            entry is Some <==> self@.contains_key(*segment_id),
            entry matches Some(found) ==> found@ == self@[*segment_id],
    {
        match self.segment_states.get(segment_id) {
            Some(entry) => Some(entry.clone()),
            None => None,
        }
    }

    /// Whether all of the segments are registered.
    pub fn contains_all(&self, segment_ids: &[SegmentId]) -> (all: bool)
        ensures
            all == holds_all(self@, segment_ids@),
    {
        let mut i: usize = 0;
        while i < segment_ids.len()
            invariant
                i <= segment_ids.len(),
                forall|j: int| 0 <= j < i ==> self@.contains_key(#[trigger] segment_ids@[j]),
            decreases segment_ids.len() - i,
        {
            if !self.segment_states.contains_key(&segment_ids[i]) {
                assert(!self@.contains_key(segment_ids@[i as int]));
                return false;
            }
            i = i + 1;
        }
        true
    }

    /// The ids of the registered segments, in no particular order.
    pub fn segment_ids(&self) -> (ids: Vec<SegmentId>)
        ensures
            ids@.no_duplicates(),
            ids@.to_set() == self@.dom(),
            ids@.len() == self@.dom().len(),
    {
        let mut ids: Vec<SegmentId> = Vec::new();
        let keys = self.segment_states.keys();
        let ghost all = vstd::std_specs::hash::into_iter_keys(keys);
        assert(self@.dom() =~= self.segment_states@.dom());
        for id in iter: keys
            invariant
                iter.seq().unref() == all,
                ids@ == all.take(iter.index()),
        {
            ids.push(*id);
        }
        assert(all.take(all.len() as int) =~= all);
        ids
    }

    /// The entries of the registered segments, in no particular order.
    pub fn segment_entries(&self) -> (entries: Vec<SegmentEntry>)
        requires
            segments_wf(self@),
        ensures
            lists(entry_views(entries@), self@),
    {
        let ids = self.segment_ids();
        let mut entries: Vec<SegmentEntry> = Vec::new();
        let mut i: usize = 0;
        while i < ids.len()
            invariant
                i <= ids.len(),
                entries.len() == i,
                ids@.to_set() == self@.dom(),
                forall|j: int| 0 <= j < i ==> (#[trigger] entries@[j])@ == self@[ids@[j]],
            decreases ids.len() - i,
        {
            assert(ids@.to_set().contains(ids@[i as int]));
            match self.get(&ids[i]) {
                Some(entry) => entries.push(entry),
                None => {},
            }
            i = i + 1;
        }
        proof {
            let views = entry_views(entries@);
            assert forall|j: int| 0 <= j < views.len() implies self@.contains_key(
                (#[trigger] views[j]).id(),
            ) && self@[views[j].id()] == views[j] && views[j].id() == ids@[j] by {
                assert(ids@.to_set().contains(ids@[j]));
                assert(views[j] == entries@[j]@);
            }
            assert forall|id: SegmentId| #[trigger] self@.contains_key(id) implies exists|j: int|
                0 <= j < views.len() && (#[trigger] views[j]).id() == id by {
                assert(ids@.to_set().contains(id));
                let j = choose|j: int| 0 <= j < ids@.len() && ids@[j] == id;
                assert(views[j].id() == id);
            }
        }
        entries
    }

    /// The metadata of the registered segments, by increasing id.
    pub fn segment_metas(&self) -> (metas: Vec<SegmentMeta>)
        requires
            segments_wf(self@),
        ensures
            lists_metas(metas@, self@),
            sorted_by_id(metas@),
    {
        let ids = sorted(self.segment_ids());
        let mut metas: Vec<SegmentMeta> = Vec::new();
        let mut i: usize = 0;
        while i < ids.len()
            invariant
                i <= ids.len(),
                metas.len() == i,
                ids@.to_set() == self@.dom(),
                forall|j: int| 0 <= j < i ==> #[trigger] metas@[j] == self@[ids@[j]].meta,
            decreases ids.len() - i,
        {
            assert(ids@.to_set().contains(ids@[i as int]));
            match self.segment_states.get(&ids[i]) {
                Some(entry) => metas.push(*entry.meta()),
                None => {},
            }
            i = i + 1;
        }
        proof {
            assert forall|i: int, j: int| 0 <= i < ids@.len() && 0 <= j < ids@.len() && i != j
                implies ids@[i] != ids@[j] by {
                assert(i < j || j < i);
            }
            lemma_chosen_lists_metas(self@, self@, ids@, metas@);
            assert forall|i: int, j: int| 0 <= i < j < metas@.len() implies (
            #[trigger] metas@[i]).segment_id < (#[trigger] metas@[j]).segment_id by {
                assert(ids@.to_set().contains(ids@[i]) && ids@.to_set().contains(ids@[j]));
            }
        }
        metas
    }

    /// The metadata of the registered segments that are in merge by neither of the two sets, in no
    /// particular order.
    pub fn get_mergeable_segments(
        &self,
        in_merge_segment_ids: &HashSet<SegmentId>,
        marked_segment_ids: &HashSet<SegmentId>,
    ) -> (metas: Vec<SegmentMeta>)
        requires
            segments_wf(self@),
        ensures
            lists_metas(
                metas@,
                self@.remove_keys(in_merge_segment_ids@.union(marked_segment_ids@)),
            ),
    {
        let ids = self.segment_ids();
        let ghost busy = in_merge_segment_ids@.union(marked_segment_ids@);
        let ghost idle = self@.remove_keys(busy);
        let ghost mut chosen: Seq<SegmentId> = Seq::empty();
        let mut metas: Vec<SegmentMeta> = Vec::new();
        let mut i: usize = 0;
        while i < ids.len()
            invariant
                i <= ids.len(),
                ids@.no_duplicates(),
                ids@.to_set() == self@.dom(),
                busy == in_merge_segment_ids@.union(marked_segment_ids@),
                idle == self@.remove_keys(busy),
                chosen.no_duplicates(),
                chosen.len() == metas@.len(),
                forall|j: int|
                    0 <= j < metas@.len() ==> #[trigger] metas@[j] == self@[chosen[j]].meta,
                forall|id: SegmentId| #[trigger]
                    chosen.contains(id) <==> ids@.take(i as int).contains(id) && idle.contains_key(
                        id,
                    ),
            decreases ids.len() - i,
        {
            let ghost before = chosen;
            let ghost id = ids@[i as int];
            proof {
                assert(ids@.to_set().contains(id));
                assert(ids@.take(i + 1) =~= ids@.take(i as int).push(id));
                assert(!ids@.take(i as int).contains(id));
                assert(!before.contains(id));
            }
            match self.segment_states.get(&ids[i]) {
                Some(entry) => {
                    if !in_merge_segment_ids.contains(&ids[i]) && !marked_segment_ids.contains(
                        &ids[i],
                    ) {
                        metas.push(*entry.meta());
                        proof {
                            chosen = before.push(id);
                        }
                    }
                },
                None => {},
            }
            proof {
                assert forall|other: SegmentId| #[trigger] chosen.contains(other) <==> ids@.take(
                    i + 1,
                ).contains(other) && idle.contains_key(other) by {
                    lemma_push_contains(ids@.take(i as int), id, other);
                    lemma_push_contains(before, id, other);
                }
            }
            i = i + 1;
        }
        proof {
            assert(ids@.take(i as int) =~= ids@);
            assert(chosen.to_set() =~= idle.dom()) by {
                assert forall|id: SegmentId| chosen.contains(id) <==> idle.contains_key(id) by {
                    assert(ids@.to_set().contains(id) == ids@.contains(id));
                }
            }
            lemma_chosen_lists_metas(self@, idle, chosen, metas@);
        }
        metas
    }
}

/// A sequence with one more element holds what it held before, and that element.
pub proof fn lemma_push_contains<T>(s: Seq<T>, new: T, other: T)
    ensures
        s.push(new).contains(other) <==> s.contains(other) || other == new,
{
    assert(s.push(new)[s.len() as int] == new);
    if s.contains(other) {
        let i = choose|i: int| 0 <= i < s.len() && s[i] == other;
        assert(s.push(new)[i] == other);
    }
}

/// Entries with ids of their own list the register that holds them and no others.
pub proof fn lemma_lists(entries: Seq<SegmentEntryView>, segments: Segments)
    requires
        forall|i: int|
            0 <= i < entries.len() ==> segments.contains_key((#[trigger] entries[i]).id())
                && segments[entries[i].id()] == entries[i],
        forall|i: int, j: int|
            0 <= i < j < entries.len() ==> (#[trigger] entries[i]).id() != (
            #[trigger] entries[j]).id(),
        forall|id: SegmentId| #[trigger]
            segments.contains_key(id) ==> exists|i: int|
                0 <= i < entries.len() && (#[trigger] entries[i]).id() == id,
    ensures
        lists(entries, segments),
{
    let ids = entries.map_values(|entry: SegmentEntryView| entry.id());
    assert(ids.no_duplicates()) by {
        assert forall|i: int, j: int| 0 <= i < ids.len() && 0 <= j < ids.len() && i != j implies
            ids[i] != ids[j] by {
            if i < j {
                assert(entries[i].id() != entries[j].id());
            } else {
                assert(entries[j].id() != entries[i].id());
            }
        }
    }
    ids.unique_seq_to_set();
    assert(ids.to_set() =~= segments.dom()) by {
        assert forall|id: SegmentId| ids.contains(id) <==> segments.contains_key(id) by {
            if segments.contains_key(id) {
                let i = choose|i: int| 0 <= i < entries.len() && (#[trigger] entries[i]).id() == id;
                assert(ids[i] == id);
            }
            if ids.contains(id) {
                let i = choose|i: int| 0 <= i < ids.len() && ids[i] == id;
                assert(entries[i].id() == id);
            }
        }
    }
}

/// Filling a register with the entries of a listing gives the listed segments.
pub proof fn lemma_filled(entries: Seq<SegmentEntryView>, segments: Segments)
    requires
        lists(entries, segments),
    ensures
        filled_with(entries) == segments,
{
    lemma_filled_with(entries);
    let filled = filled_with(entries);
    assert forall|id: SegmentId| #[trigger] filled.contains_key(id) <==> segments.contains_key(
        id,
    ) by {
        if filled.contains_key(id) {
            let i = choose|i: int| 0 <= i < entries.len() && (#[trigger] entries[i]).id() == id;
            assert(segments.contains_key(entries[i].id()));
        }
        if segments.contains_key(id) {
            let i = choose|i: int| 0 <= i < entries.len() && (#[trigger] entries[i]).id() == id;
            assert(filled.contains_key(entries[i].id()));
        }
    }
    assert forall|id: SegmentId| #[trigger] filled.contains_key(id) implies filled[id]
        == segments[id] by {
        let i = choose|i: int| 0 <= i < entries.len() && (#[trigger] entries[i]).id() == id;
        assert(filled[entries[i].id()] == entries[i]);
    }
    assert(filled =~= segments);
}

/// Finitely many segments fill a register.
pub proof fn lemma_filled_finite(entries: Seq<SegmentEntryView>)
    ensures
        filled_with(entries).dom().finite(),
    decreases entries.len(),
{
    if entries.len() > 0 {
        lemma_filled_finite(entries.drop_last());
    }
}

/// Entries with ids of their own are found under them in the register they fill.
pub proof fn lemma_filled_with(entries: Seq<SegmentEntryView>)
    requires
        forall|i: int, j: int|
            0 <= i < j < entries.len() ==> (#[trigger] entries[i]).id() != (
            #[trigger] entries[j]).id(),
    ensures
        forall|i: int|
            0 <= i < entries.len() ==> filled_with(entries).contains_key(
                (#[trigger] entries[i]).id(),
            ) && filled_with(entries)[entries[i].id()] == entries[i],
        forall|id: SegmentId| #[trigger]
            filled_with(entries).contains_key(id) ==> exists|i: int|
                0 <= i < entries.len() && (#[trigger] entries[i]).id() == id,
    decreases entries.len(),
{
    if entries.len() > 0 {
        let rest = entries.drop_last();
        assert forall|i: int, j: int| 0 <= i < j < rest.len() implies (#[trigger] rest[i]).id()
            != (#[trigger] rest[j]).id() by {
            assert(entries[i].id() != entries[j].id());
        }
        lemma_filled_with(rest);
        assert forall|i: int| 0 <= i < entries.len() implies filled_with(entries).contains_key(
            (#[trigger] entries[i]).id(),
        ) && filled_with(entries)[entries[i].id()] == entries[i] by {
            if i < rest.len() {
                assert(rest[i] == entries[i]);
                assert(entries[i].id() != entries[entries.len() - 1].id());
            }
        }
        assert forall|id: SegmentId| #[trigger] filled_with(entries).contains_key(
            id,
        ) implies exists|i: int| 0 <= i < entries.len() && (#[trigger] entries[i]).id() == id by {
            if id == entries.last().id() {
                assert(entries[entries.len() - 1].id() == id);
            } else {
                assert(filled_with(rest).contains_key(id));
                let i = choose|i: int| 0 <= i < rest.len() && (#[trigger] rest[i]).id() == id;
                assert(entries[i].id() == id);
            }
        }
    }
}

/// Metadata that was read off a register, id by id, lists the part of it that the ids name.
proof fn lemma_chosen_lists_metas(
    segments: Segments,
    part: Segments,
    ids: Seq<SegmentId>,
    metas: Seq<SegmentMeta>,
)
    requires
        segments_wf(segments),
        forall|id: SegmentId| #[trigger]
            part.contains_key(id) ==> segments.contains_key(id) && part[id] == segments[id],
        ids.no_duplicates(),
        ids.to_set() == part.dom(),
        metas.len() == ids.len(),
        forall|j: int| 0 <= j < metas.len() ==> #[trigger] metas[j] == segments[ids[j]].meta,
    ensures
        lists_metas(metas, part),
{
    ids.unique_seq_to_set();
    assert forall|j: int| 0 <= j < metas.len() implies part.contains_key(
        (#[trigger] metas[j]).segment_id,
    ) && part[metas[j].segment_id].meta == metas[j] && metas[j].segment_id == ids[j] by {
        assert(ids.to_set().contains(ids[j]));
        assert(part.contains_key(ids[j]));
    }
    assert forall|id: SegmentId| #[trigger] part.contains_key(id) implies exists|j: int|
        0 <= j < metas.len() && (#[trigger] metas[j]).segment_id == id by {
        assert(ids.to_set().contains(id));
        let j = choose|j: int| 0 <= j < ids.len() && ids[j] == id;
        assert(metas[j].segment_id == id);
    }
}

/// The same ids, in increasing order.
fn sorted(ids: Vec<SegmentId>) -> (ordered: Vec<SegmentId>)
    requires
        ids@.no_duplicates(),
    ensures
        ordered@.to_set() == ids@.to_set(),
        ordered@.len() == ids@.len(),
        forall|i: int, j: int|
            0 <= i < j < ordered@.len() ==> #[trigger] ordered@[i] < #[trigger] ordered@[j],
{
    let mut ordered: Vec<SegmentId> = Vec::new();
    let mut next: usize = 0;
    while next < ids.len()
        invariant
            next <= ids.len(),
            ids@.no_duplicates(),
            ordered@.len() == next,
            forall|id: SegmentId| #[trigger]
                ordered@.contains(id) <==> ids@.take(next as int).contains(id),
            forall|i: int, j: int|
                0 <= i < j < ordered@.len() ==> #[trigger] ordered@[i] < #[trigger] ordered@[j],
        decreases ids.len() - next,
    {
        let id = ids[next];
        let mut place: usize = 0;
        while place < ordered.len() && ordered[place] < id
            invariant
                place <= ordered.len(),
                forall|i: int| 0 <= i < place ==> #[trigger] ordered@[i] < id,
            decreases ordered.len() - place,
        {
            place = place + 1;
        }
        let ghost before = ordered@;
        proof {
            assert(ids@.take(next + 1) =~= ids@.take(next as int).push(id));
            assert(!ids@.take(next as int).contains(id));
            if place < before.len() {
                assert(before.contains(before[place as int]));
            }
        }
        ordered.insert(place, id);
        proof {
            assert forall|other: SegmentId| #[trigger] ordered@.contains(other) <==> ids@.take(
                next + 1,
            ).contains(other) by {
                lemma_push_contains(ids@.take(next as int), id, other);
                assert(ordered@[place as int] == id);
                if before.contains(other) {
                    let i = choose|i: int| 0 <= i < before.len() && before[i] == other;
                    if i < place {
                        assert(ordered@[i] == other);
                    } else {
                        assert(ordered@[i + 1] == other);
                    }
                }
                if ordered@.contains(other) && other != id {
                    let i = choose|i: int| 0 <= i < ordered@.len() && ordered@[i] == other;
                    if i < place {
                        assert(before[i] == other);
                    } else {
                        assert(before[i - 1] == other);
                    }
                }
            }
        }
        next = next + 1;
    }
    proof {
        assert(ids@.take(next as int) =~= ids@);
        assert(ordered@.to_set() =~= ids@.to_set());
    }
    ordered
}

/// A listing of segments holds each of them at one place, as it is, and nothing else.
pub proof fn law_listing_is_complete(entries: Seq<SegmentEntryView>, segments: Segments)
    requires
        lists(entries, segments),
    ensures
        entries.len() == segments.dom().len(),
        forall|i: int|
            0 <= i < entries.len() ==> segments.contains_key(
                (#[trigger] entries[i]).meta.segment_id,
            ) && segments[entries[i].meta.segment_id] == entries[i],
        forall|i: int, j: int|
            0 <= i < j < entries.len() ==> (#[trigger] entries[i]).meta.segment_id != (
            #[trigger] entries[j]).meta.segment_id,
        forall|id: SegmentId| #[trigger]
            segments.contains_key(id) ==> exists|i: int|
                0 <= i < entries.len() && (#[trigger] entries[i]).meta.segment_id == id,
{
    assert forall|id: SegmentId| #[trigger] segments.contains_key(id) implies exists|i: int|
        0 <= i < entries.len() && (#[trigger] entries[i]).meta.segment_id == id by {
        let i = choose|i: int| 0 <= i < entries.len() && (#[trigger] entries[i]).id() == id;
        assert(entries[i].meta.segment_id == id);
    }
}

/// A listing of metadata holds that of each segment at one place, as it is, and nothing else. Where
/// it is sorted, the ids increase from place to place.
pub proof fn law_metadata_listing_is_complete(metas: Seq<SegmentMeta>, segments: Segments)
    requires
        lists_metas(metas, segments),
    ensures
        metas.len() == segments.dom().len(),
        forall|i: int|
            0 <= i < metas.len() ==> segments.contains_key((#[trigger] metas[i]).segment_id)
                && segments[metas[i].segment_id].meta == metas[i],
        forall|i: int, j: int|
            0 <= i < j < metas.len() ==> (#[trigger] metas[i]).segment_id != (
            #[trigger] metas[j]).segment_id,
        forall|id: SegmentId| #[trigger]
            segments.contains_key(id) ==> exists|i: int|
                0 <= i < metas.len() && (#[trigger] metas[i]).segment_id == id,
        sorted_by_id(metas) ==> forall|i: int, j: int|
            0 <= i < j < metas.len() ==> (#[trigger] metas[i]).segment_id < (
            #[trigger] metas[j]).segment_id,
{
}

/// A register that is filled with entries holds just their ids, and under each the last entry that
/// has it.
pub proof fn law_later_entry_stays(entries: Seq<SegmentEntryView>, id: SegmentId)
    ensures
        filled_with(entries).contains_key(id) <==> exists|i: int|
            0 <= i < entries.len() && (#[trigger] entries[i]).meta.segment_id == id,
        forall|i: int|
            0 <= i < entries.len() && (#[trigger] entries[i]).meta.segment_id == id && (forall|
                j: int,
            |
                i < j < entries.len() ==> (#[trigger] entries[j]).meta.segment_id != id)
                ==> filled_with(entries)[id] == entries[i],
    decreases entries.len(),
{
    if entries.len() > 0 {
        let rest = entries.drop_last();
        let last = entries[entries.len() - 1];
        law_later_entry_stays(rest, id);
        assert forall|i: int| 0 <= i < rest.len() implies #[trigger] rest[i] == entries[i] by {}
        if last.meta.segment_id == id {
            assert(entries[entries.len() - 1].meta.segment_id == id);
        } else {
            if filled_with(rest).contains_key(id) {
                let i = choose|i: int|
                    0 <= i < rest.len() && (#[trigger] rest[i]).meta.segment_id == id;
                assert(entries[i].meta.segment_id == id);
            }
            if exists|i: int|
                0 <= i < entries.len() && (#[trigger] entries[i]).meta.segment_id == id {
                let i = choose|i: int|
                    0 <= i < entries.len() && (#[trigger] entries[i]).meta.segment_id == id;
                assert(rest[i].meta.segment_id == id);
            }
        }
        assert forall|i: int|
            0 <= i < entries.len() && (#[trigger] entries[i]).meta.segment_id == id && (forall|
                j: int,
            |
                i < j < entries.len() ==> (#[trigger] entries[j]).meta.segment_id
                    != id) implies filled_with(entries)[id] == entries[i] by {
            if i < rest.len() {
                assert(entries[entries.len() - 1].meta.segment_id != id);
                assert(rest[i].meta.segment_id == id);
                assert forall|j: int| i < j < rest.len() implies (
                #[trigger] rest[j]).meta.segment_id != id by {
                    assert(entries[j].meta.segment_id != id);
                }
            }
        }
    }
}

/// A segment found in the metadata of an index is registered with that metadata, at the given place
/// in the delete queue, with no document known to be dead and without a label.
pub proof fn law_found_segments_start_fresh(
    metas: Seq<SegmentMeta>,
    cursor: DeleteCursor,
    id: SegmentId,
)
    ensures
        ({
            let register = filled_with(fresh_entries(metas, cursor));
            &&& register.contains_key(id) <==> exists|i: int|
                0 <= i < metas.len() && (#[trigger] metas[i]).segment_id == id
            &&& forall|i: int|
                0 <= i < metas.len() && (#[trigger] metas[i]).segment_id == id && (forall|j: int|
                    i < j < metas.len() ==> (#[trigger] metas[j]).segment_id != id)
                    ==> register[id].meta == metas[i] && register[id].cursor == cursor
                    && register[id].alive is None && register[id].generation is None
        }),
{
    let fresh = fresh_entries(metas, cursor);
    let register = filled_with(fresh);
    law_later_entry_stays(fresh, id);
    if register.contains_key(id) {
        let i = choose|i: int| 0 <= i < fresh.len() && (#[trigger] fresh[i]).meta.segment_id == id;
        assert(metas[i].segment_id == id);
    }
    if exists|i: int| 0 <= i < metas.len() && (#[trigger] metas[i]).segment_id == id {
        let i = choose|i: int| 0 <= i < metas.len() && (#[trigger] metas[i]).segment_id == id;
        assert(fresh[i].meta.segment_id == id);
    }
    assert forall|i: int|
        0 <= i < metas.len() && (#[trigger] metas[i]).segment_id == id && (forall|j: int|
            i < j < metas.len() ==> (#[trigger] metas[j]).segment_id != id) implies register[id]
        == fresh[i] by {
        assert(fresh[i].meta.segment_id == id);
        assert forall|j: int| i < j < fresh.len() implies (#[trigger] fresh[j]).meta.segment_id
            != id by {
            assert(metas[j].segment_id != id);
        }
    }
}

/// What is asked of a register: that each entry stands under its own id. What is asked of its
/// metadata, where documents are counted: that no more are deleted than there are.
pub proof fn law_what_is_asked_of_a_register(segments: Segments)
    ensures
        segments_wf(segments) <==> segments.dom().finite() && forall|id: SegmentId| #[trigger]
            segments.contains_key(id) ==> segments[id].meta.segment_id == id,
        metas_wf(segments) <==> forall|id: SegmentId| #[trigger]
            segments.contains_key(id) ==> (segments[id].meta.deletes matches Some(deletes)
                ==> deletes.num_deleted_docs <= segments[id].meta.max_doc),
{
    if metas_wf(segments) {
        assert forall|id: SegmentId| #[trigger] segments.contains_key(id) implies (
        segments[id].meta.deletes matches Some(deletes) ==> deletes.num_deleted_docs
            <= segments[id].meta.max_doc) by {
            assert(segments[id].meta.wf());
        }
    }
}

} // verus!
