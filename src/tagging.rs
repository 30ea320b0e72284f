//! Setting the track and total fields of an ID3 tag.
use id3::TagLike;
use vstd::prelude::*;
use crate::plan::{numbered_in_sequence, Assignment};

verus! {

/// id3's tag, carried through unopened: what the logic needs of it is said
/// through `tag_track` and `tag_total`.
#[verifier::external_type_specification]
#[verifier::external_body]
pub struct ExTag(id3::Tag);

/// What `id3::Tag::track` returns: the track number of the first `TRCK` frame.
pub uninterp spec fn tag_track(t: id3::Tag) -> Option<u32>;

/// What `id3::Tag::total_tracks` returns: the total of the first `TRCK` frame.
pub uninterp spec fn tag_total(t: id3::Tag) -> Option<u32>;

/// How many of the tag's frames have the id `TRCK`.
pub uninterp spec fn trck_frames(t: id3::Tag) -> nat;

/// The tag's frames whose id is not `TRCK`, in order, each as its `Debug` text.
pub uninterp spec fn other_frames(t: id3::Tag) -> Seq<Seq<char>>;

/// Relies on id3::Tag::new: a tag without frames.
pub assume_specification<'a>[ id3::Tag::new ]() -> (r: id3::Tag)
    ensures
        trck_frames(r) == 0,
        other_frames(r) == Seq::<Seq<char>>::empty(),
        tag_track(r) is None,
        tag_total(r) is None,
;

/// Relies on id3::TagLike::remove_track: it drops every frame with the id
/// `TRCK` (through `remove`, which keeps the other frames in their order).
#[verifier::external_body]
fn remove_track(tag: &mut id3::Tag)
    ensures
        trck_frames(*final(tag)) == 0,
        other_frames(*final(tag)) == other_frames(*old(tag)),
        tag_track(*final(tag)) is None,
        tag_total(*final(tag)) is None,
{
    tag.remove_track()
}

/// Relies on id3::TagLike::set_track: on a tag without a `TRCK` frame it
/// appends the text frame `TRCK` holding the track alone (`add_frame` finds
/// nothing to replace and pushes).
#[verifier::external_body]
fn set_track(tag: &mut id3::Tag, track: u32)
    ensures
        trck_frames(*old(tag)) == 0 ==> trck_frames(*final(tag)) == 1,
        trck_frames(*old(tag)) == 0 ==> tag_track(*final(tag)) == Some(track),
        trck_frames(*old(tag)) == 0 ==> tag_total(*final(tag)) is None,
        other_frames(*final(tag)) == other_frames(*old(tag)),
{
    tag.set_track(track)
}

/// Relies on id3::TagLike::set_total_tracks: where the one `TRCK` frame is
/// text that gives a track, it replaces that frame (`add_frame` removes the
/// frame that compares equal and pushes) by one holding `track/total`.
#[verifier::external_body]
fn set_total_tracks(tag: &mut id3::Tag, total: u32)
    ensures
        trck_frames(*old(tag)) == 1 && tag_track(*old(tag)) is Some ==> trck_frames(*final(tag))
            == 1,
        trck_frames(*old(tag)) == 1 && tag_track(*old(tag)) is Some ==> tag_track(*final(tag))
            == tag_track(*old(tag)),
        trck_frames(*old(tag)) == 1 && tag_track(*old(tag)) is Some ==> tag_total(*final(tag))
            == Some(total),
        other_frames(*final(tag)) == other_frames(*old(tag)),
{
    tag.set_total_tracks(total)
}

/// What reading a file's tag gave.
pub enum TagRead {
    /// The file holds a tag.
    Existing(id3::Tag),
    /// The file holds no tag: numbering starts from an empty one.
    Absent,
    /// The tag could not be read; the text says why.
    Unreadable(String),
}

/// The ways a run, or one file of it, can fail.
#[derive(Debug, PartialEq, Eq)]
pub enum TrackError {
    /// The directory could not be listed: the run stops.
    DirectoryUnreadable(String),
    /// A file's tag could not be read: that file is passed over.
    TagReadFailed(String),
    /// A file's tag could not be written: that file is passed over.
    TagWriteFailed(String),
}

/// The tag holds one `TRCK` frame, giving track `track` of `total`.
pub open spec fn numbered_as(t: id3::Tag, track: u32, total: u32) -> bool {
    &&& trck_frames(t) == 1
    &&& tag_track(t) == Some(track)
    &&& tag_total(t) == Some(total)
}

/// The tag to write back: the one read, or a new empty one where the file
/// had none, with its `TRCK` frames replaced by one giving track `track` of
/// `total`. Every other frame is kept as it was. A read error is passed on.
pub fn number_tag(read: TagRead, track: u32, total: u32) -> (r: Result<id3::Tag, TrackError>)
    ensures
        match read {
            TagRead::Unreadable(m) => r == Err::<id3::Tag, TrackError>(
                TrackError::TagReadFailed(m),
            ),
            TagRead::Absent => r is Ok && numbered_as(r->Ok_0, track, total) && other_frames(
                r->Ok_0,
            ) == Seq::<Seq<char>>::empty(),
            TagRead::Existing(old_tag) => r is Ok && numbered_as(r->Ok_0, track, total)
                && other_frames(r->Ok_0) == other_frames(old_tag),
        },
{
    let mut tag = match read {
        TagRead::Existing(t) => t,
        TagRead::Absent => id3::Tag::new(),
        TagRead::Unreadable(m) => {
            return Err(TrackError::TagReadFailed(m));
        },
    };
    remove_track(&mut tag);
    set_track(&mut tag, track);
    set_total_tracks(&mut tag, total);
    Ok(tag)
}

/// In a run, a tag numbered from the plan's place `k` carries track `k + 1`
/// and, as its total, the number of files in the run.
pub proof fn lemma_numbered_tag_fields(plan: Seq<Assignment>, k: int, t: id3::Tag)
    requires
        numbered_in_sequence(plan),
        0 <= k < plan.len(),
        tag_track(t) == Some(plan[k].track),
        tag_total(t) == Some(plan[k].total),
    ensures
        tag_track(t) is Some && tag_track(t)->0 == k + 1,
        tag_total(t) is Some && tag_total(t)->0 == plan.len(),
{
}

} // verus!
