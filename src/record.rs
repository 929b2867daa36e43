use vstd::prelude::*;

verus! {

/// The metadata decoded from one file. An absent field is not an empty one.
pub struct TagRecord {
    pub title: Option<String>,
    pub artist: Option<String>,
    pub album: Option<String>,
    pub genre: Option<String>,
    pub track: Option<u32>,
}

/// Text to stand for a field that is absent.
pub open spec fn placeholder() -> Seq<char> {
    seq!['?', '?', '?']
}

pub open spec fn field_text(f: Option<String>) -> Seq<char> {
    match f {
        Some(s) => s@,
        None => placeholder(),
    }
}

/// The one-line summary "artist - album - title".
pub open spec fn summary_text(t: TagRecord) -> Seq<char> {
    field_text(t.artist) + seq![' ', '-', ' '] + field_text(t.album) + seq![' ', '-', ' ']
        + field_text(t.title)
}

/// Converts a track number to the store's integer width. A number that does
/// not fit is refused (handed back) rather than wrapped.
pub fn opt_u32_to_i32(track: Option<u32>) -> (r: Result<Option<i32>, u32>)
    ensures
        match track {
            None => r == Ok::<Option<i32>, u32>(None),
            Some(n) => if n <= i32::MAX {
                r == Ok::<Option<i32>, u32>(Some(n as i32))
            } else {
                r == Err::<Option<i32>, u32>(n)
            },
        },
{
    match track {
        Some(n) => if n <= i32::MAX as u32 {
            Ok(Some(n as i32))
        } else {
            Err(n)
        },
        None => Ok(None),
    }
}

/// An owned copy of an optional text field; absent stays absent.
pub fn clean_tag(tag: Option<&str>) -> (r: Option<String>)
    ensures
        r is Some <==> tag is Some,
        tag is Some ==> r->Some_0@ == tag->Some_0@,
{
    match tag {
        Some(s) => Some(s.to_owned()),
        None => None,
    }
}

fn push_field(out: &mut String, f: &Option<String>)
    ensures
        final(out)@ == old(out)@ + field_text(*f),
{
    match f {
        Some(s) => out.append(s.as_str()),
        None => {
            proof {
                reveal_strlit("???");
            }
            out.append("???");
        },
    }
}

impl TagRecord {
    /// The line a console report shows for this record: artist, album and
    /// title joined by " - ", with "???" for an absent field.
    pub fn summary(&self) -> (r: String)
        ensures
            r@ == summary_text(*self),
    {
        proof {
            reveal_strlit(" - ");
        }
        let mut out = String::new();
        push_field(&mut out, &self.artist);
        out.append(" - ");
        push_field(&mut out, &self.album);
        out.append(" - ");
        push_field(&mut out, &self.title);
        out
    }
}

} // verus!
