use vstd::prelude::*;

verus! {

/// The three bytes that open a tag container: "ID3".
pub open spec fn marker() -> Seq<u8> {
    seq![0x49u8, 0x44u8, 0x33u8]
}

/// A header qualifies when its first three bytes are the marker.
pub open spec fn has_marker(header: Seq<u8>) -> bool {
    header.len() >= 3 && header.subrange(0, 3) == marker()
}

/// Decides from the leading bytes of a regular file whether it qualifies.
/// Fewer than three bytes never qualify; bytes are compared raw, so a header
/// that is not valid text is simply no match.
pub fn is_mp3(header: &[u8]) -> (r: bool)
    ensures
        r == has_marker(header@),
        header@.len() < 3 ==> !r,
{
    if header.len() < 3 {
        return false;
    }
    let r = header[0] == 0x49u8 && header[1] == 0x44u8 && header[2] == 0x33u8;
    assert(r == (header@.subrange(0, 3) =~= marker()));
    r
}

/// What a stat of one entry reports, or why it failed.
pub enum EntryKind {
    Directory,
    RegularFile,
    Other,
}

/// How the walker is to treat one entry.
pub enum EntryClassification {
    Directory,
    QualifyingFile,
    NonQualifyingFile,
    /// The entry could not be inspected; the text says why.
    Unreadable(String),
}

pub open spec fn classification_of(
    stat: Result<EntryKind, String>,
    header: Result<Vec<u8>, String>,
) -> EntryClassification {
    match stat {
        Err(cause) => EntryClassification::Unreadable(cause),
        Ok(EntryKind::Directory) => EntryClassification::Directory,
        Ok(EntryKind::Other) => EntryClassification::NonQualifyingFile,
        Ok(EntryKind::RegularFile) => match header {
            Err(cause) => EntryClassification::Unreadable(cause),
            Ok(bytes) => if has_marker(bytes@) {
                EntryClassification::QualifyingFile
            } else {
                EntryClassification::NonQualifyingFile
            },
        },
    }
}

/// Classifies one entry from its stat and, for a regular file, from the
/// attempt to read its leading bytes. The header is looked at only when the
/// entry is a regular file. A short header is no failure: it does not qualify.
pub fn classify_entry(
    stat: Result<EntryKind, String>,
    header: Result<Vec<u8>, String>,
) -> (r: EntryClassification)
    ensures
        r == classification_of(stat, header),
        stat == Ok::<EntryKind, String>(EntryKind::RegularFile) && header is Ok
            && header->Ok_0@.len() < 3 ==> r == EntryClassification::NonQualifyingFile,
{
    match stat {
        Err(cause) => EntryClassification::Unreadable(cause),
        Ok(EntryKind::Directory) => EntryClassification::Directory,
        Ok(EntryKind::Other) => EntryClassification::NonQualifyingFile,
        Ok(EntryKind::RegularFile) => match header {
            Err(cause) => EntryClassification::Unreadable(cause),
            Ok(bytes) => if is_mp3(bytes.as_slice()) {
                EntryClassification::QualifyingFile
            } else {
                EntryClassification::NonQualifyingFile
            },
        },
    }
}

} // verus!
