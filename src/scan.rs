//! Selection of the audio files from a directory listing.
use vstd::prelude::*;
use vstd::utf8::encode_utf8;

verus! {

/// A directory entry as the listing reported it.
pub struct Candidate {
    /// The entry's file name.
    pub name: String,
    /// Whether the entry is a regular file.
    pub is_file: bool,
    /// The part of the name after its last dot, where there is one and it is text.
    pub extension: Option<String>,
}

/// One item of a directory listing: an entry, or an error while reading one.
pub enum ListingEntry {
    Unreadable,
    Found(Candidate),
}

/// ASCII codes used by the extension test.
pub const UPPER_A: u8 = 65;
pub const UPPER_Z: u8 = 90;
pub const CASE_OFFSET: u8 = 32;
pub const LOWER_M: u8 = 109;
pub const LOWER_P: u8 = 112;
pub const DIGIT_3: u8 = 51;

/// A byte with ASCII upper case letters taken to lower case.
pub open spec fn ascii_lower(b: u8) -> u8 {
    if UPPER_A <= b && b <= UPPER_Z {
        (b + CASE_OFFSET) as u8
    } else {
        b
    }
}

/// The extension bytes spell `mp3`, ignoring ASCII case.
pub open spec fn is_track_extension_bytes(e: Seq<u8>) -> bool {
    &&& e.len() == 3
    &&& ascii_lower(e[0]) == LOWER_M
    &&& ascii_lower(e[1]) == LOWER_P
    &&& ascii_lower(e[2]) == DIGIT_3
}

/// The entry is a regular file whose extension is `mp3` in any ASCII case.
pub open spec fn is_track_file(e: ListingEntry) -> bool {
    match e {
        ListingEntry::Found(c) => c.is_file && match c.extension {
            Some(x) => is_track_extension_bytes(encode_utf8(x@)),
            None => false,
        },
        ListingEntry::Unreadable => false,
    }
}

/// The number of audio files in a listing.
pub open spec fn track_count(entries: Seq<ListingEntry>) -> nat
    decreases entries.len(),
{
    if entries.len() == 0 {
        0
    } else if is_track_file(entries.last()) {
        track_count(entries.drop_last()) + 1
    } else {
        track_count(entries.drop_last())
    }
}

/// The entry's file name (empty for an unreadable entry).
pub open spec fn entry_name(e: ListingEntry) -> Seq<char> {
    match e {
        ListingEntry::Found(c) => c.name@,
        ListingEntry::Unreadable => Seq::empty(),
    }
}

fn lower_byte(b: u8) -> (r: u8)
    ensures
        r == ascii_lower(b),
{
    if UPPER_A <= b && b <= UPPER_Z {
        b + CASE_OFFSET
    } else {
        b
    }
}

/// Whether an extension is `mp3`, ignoring ASCII case (`MP3`, `Mp3`, ...).
pub fn is_track_extension(ext: &str) -> (r: bool)
    ensures
        r == is_track_extension_bytes(encode_utf8(ext@)),
{
    let b = ext.as_bytes();
    b.len() == 3 && lower_byte(b[0]) == LOWER_M && lower_byte(b[1]) == LOWER_P && lower_byte(b[2])
        == DIGIT_3
}

/// Whether a listing entry is an audio file to number.
pub fn is_track_entry(e: &ListingEntry) -> (r: bool)
    ensures
        r == is_track_file(*e),
{
    match e {
        ListingEntry::Found(c) => {
            if !c.is_file {
                return false;
            }
            match &c.extension {
                Some(x) => is_track_extension(x.as_str()),
                None => false,
            }
        },
        ListingEntry::Unreadable => false,
    }
}

/// The positions of the audio files in a listing, in listing order. An
/// unreadable entry is passed over; the entries after it are still examined.
pub fn select_tracks(entries: &Vec<ListingEntry>) -> (r: Vec<usize>)
    ensures
        r@.len() == track_count(entries@),
        r@.len() <= entries@.len(),
        forall|k: int| 0 <= k < r@.len() ==> r@[k] < entries@.len() && is_track_file(
            entries@[r@[k] as int],
        ),
        forall|j: int, k: int| 0 <= j < k < r@.len() ==> r@[j] < r@[k],
        forall|i: int| 0 <= i < entries@.len() && is_track_file(#[trigger] entries@[i])
            ==> r@.contains(i as usize),
{
    let mut r: Vec<usize> = Vec::new();
    let mut i: usize = 0;
    while i < entries.len()
        invariant
            i <= entries@.len(),
            r@.len() <= i,
            r@.len() == track_count(entries@.subrange(0, i as int)),
            forall|k: int| 0 <= k < r@.len() ==> r@[k] < i && is_track_file(
                entries@[r@[k] as int],
            ),
            forall|j: int, k: int| 0 <= j < k < r@.len() ==> r@[j] < r@[k],
            forall|m: int| 0 <= m < i && is_track_file(#[trigger] entries@[m]) ==> r@.contains(
                m as usize,
            ),
        decreases entries@.len() - i,
    {
        assert(entries@.subrange(0, i + 1).drop_last() == entries@.subrange(0, i as int));
        if is_track_entry(&entries[i]) {
            let ghost prev = r@;
            r.push(i);
            proof {
                assert forall|m: int| 0 <= m < i + 1 && is_track_file(
                    #[trigger] entries@[m],
                ) implies r@.contains(m as usize) by {
                    if m == i {
                        assert(r@[r@.len() - 1] == i);
                    } else {
                        let k = choose|k: int| 0 <= k < prev.len() && prev[k] == m as usize;
                        assert(r@[k] == m as usize);
                    }
                }
            }
        }
        i = i + 1;
    }
    assert(entries@.subrange(0, i as int) == entries@);
    r
}

/// An entry that is not an audio file, an unreadable one among them, takes
/// nothing from the count: the listing without it has as many audio files.
pub proof fn lemma_other_entries_count_nothing(entries: Seq<ListingEntry>, i: int)
    requires
        0 <= i < entries.len(),
        !is_track_file(entries[i]),
    ensures
        track_count(entries.remove(i)) == track_count(entries),
    decreases entries.len(),
{
    if i == entries.len() - 1 {
        assert(entries.remove(i) =~= entries.drop_last());
    } else {
        lemma_other_entries_count_nothing(entries.drop_last(), i);
        assert(entries.remove(i).drop_last() =~= entries.drop_last().remove(i));
        assert(entries.remove(i).last() == entries.last());
    }
}

} // verus!
