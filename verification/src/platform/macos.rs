//! The drop marker of a file, kept among the file's user tags.
//!
//! The tags of a file are stored in one extended attribute, as a property list that holds
//! an array of strings. Reading and writing the attribute is the caller's part; this
//! module decodes and encodes its value and decides what a change of the marker has to
//! write.

use crate::text::{contains_text, same_text, texts};
use vstd::prelude::*;
use vstd::string::*;

verus! {

/// What the property list in `bytes` decodes to as an array of strings, if it is one.
pub uninterp spec fn plist_tags(bytes: Seq<u8>) -> Option<Seq<Seq<char>>>;

/// The binary property list for an array of strings, if they can be encoded.
pub uninterp spec fn plist_binary(tags: Seq<Seq<char>>) -> Option<Seq<u8>>;

/// The name of the extended attribute that holds a file's tags.
pub open spec fn tag_attribute() -> Seq<char> {
    "com.apple.metadata:_kMDItemUserTags"@
}

/// The tag that marks a file as dropped.
pub open spec fn drop_tag() -> Seq<char> {
    "Dropped\n1"@
}

/// The tags to write so that the marker is set, or `None` where it is set already.
pub open spec fn tags_when_set(tags: Seq<Seq<char>>) -> Option<Seq<Seq<char>>> {
    if tags.contains(drop_tag()) {
        None
    } else {
        Some(tags.push(drop_tag()))
    }
}

/// What tells the tags that are not the drop marker from the marker.
pub open spec fn is_other_tag() -> spec_fn(Seq<char>) -> bool {
    |tag: Seq<char>| tag != drop_tag()
}

/// The tags to write so that the marker is clear, or `None` where it is clear already.
/// Clearing the marker takes away the marker and nothing else: every other tag stays, in
/// its place.
pub open spec fn tags_when_cleared(tags: Seq<Seq<char>>) -> Option<Seq<Seq<char>>> {
    if tags.contains(drop_tag()) {
        Some(tags.filter(is_other_tag()))
    } else {
        None
    }
}

/// Clearing the marker leaves exactly the other tags: what is written holds a tag if and
/// only if the file held it and it is not the marker. So the marker is gone afterwards.
pub proof fn lemma_clear_keeps_other_tags(tags: Seq<Seq<char>>, tag: Seq<char>)
    requires
        tags.contains(drop_tag()),
    ensures
        tags_when_cleared(tags) is Some,
        tags_when_cleared(tags)->0.contains(tag) <==> tags.contains(tag) && tag != drop_tag(),
        !tags_when_cleared(tags)->0.contains(drop_tag()),
{
    lemma_other_tags(tags);
}

/// Setting the marker on a file that lacks it and clearing it again gives the file's tags
/// back as they were.
pub proof fn lemma_set_then_clear(tags: Seq<Seq<char>>)
    requires
        !tags.contains(drop_tag()),
    ensures
        tags_when_set(tags) is Some,
        tags_when_cleared(tags_when_set(tags)->0) == Some(tags),
{
    let marked = tags.push(drop_tag());
    assert(marked[marked.len() - 1] == drop_tag());
    lemma_unmarked_unchanged(tags);
    tags.lemma_filter_push(drop_tag(), is_other_tag());
}

proof fn lemma_other_tags(tags: Seq<Seq<char>>)
    ensures
        forall|tag: Seq<char>| #[trigger]
            tags.filter(is_other_tag()).contains(tag) <==> tags.contains(tag) && tag != drop_tag(),
    decreases tags.len(),
{
    reveal(Seq::filter);
    if tags.len() > 0 {
        let rest = tags.drop_last();
        lemma_other_tags(rest);
        assert forall|tag: Seq<char>| #[trigger]
            tags.filter(is_other_tag()).contains(tag) <==> tags.contains(tag) && tag
                != drop_tag() by {
            crate::paths::lemma_contains_last(tags, tag);
            crate::paths::lemma_contains_push(rest.filter(is_other_tag()), tags.last(), tag);
        }
    }
}

proof fn lemma_unmarked_unchanged(tags: Seq<Seq<char>>)
    requires
        !tags.contains(drop_tag()),
    ensures
        tags.filter(is_other_tag()) == tags,
    decreases tags.len(),
{
    reveal(Seq::filter);
    if tags.len() > 0 {
        let rest = tags.drop_last();
        assert(tags[tags.len() - 1] == tags.last());
        assert forall|i: int| 0 <= i < rest.len() implies rest[i] != drop_tag() by {
            assert(tags[i] == rest[i]);
        }
        lemma_unmarked_unchanged(rest);
        assert(rest.push(tags.last()) =~= tags);
    }
}

/// The line that reports a change of the marker of the file at `path` in the log, where
/// `failure` describes what went wrong, if anything did.
pub open spec fn marker_line(set: bool, path: Seq<char>, failure: Option<Seq<char>>) -> Seq<
    char,
> {
    (if set {
        "set-drop "@
    } else {
        "unset-drop "@
    }) + path + match failure {
        None => " ok"@,
        Some(reason) => " not ok ("@ + reason + ")"@,
    }
}

/// Calls `plist::from_bytes` for an array of strings. The result is that function's: the
/// decoded strings, or `None` where it reports an error.
#[verifier::external_body]
fn decode_tags(bytes: &[u8]) -> (tags: Option<Vec<String>>)
    ensures
        match tags {
            Some(list) => plist_tags(bytes@) == Some(texts(list@)),
            None => plist_tags(bytes@) is None,
        },
{
    plist::from_bytes::<Vec<String>>(bytes).ok()
}

/// Calls `plist::to_writer_binary` on an array of strings, writing to memory. The result is
/// what that function wrote, or `None` where it reports an error.
#[verifier::external_body]
fn encode_tags(tags: &Vec<String>) -> (bytes: Option<Vec<u8>>)
    ensures
        match bytes {
            Some(written) => plist_binary(texts(tags@)) == Some(written@),
            None => plist_binary(texts(tags@)) is None,
        },
{
    let mut written: Vec<u8> = Vec::new();
    match plist::to_writer_binary(std::io::Cursor::new(&mut written), tags) {
        Ok(()) => Some(written),
        Err(_) => None,
    }
}

/// The name of the extended attribute that holds a file's tags.
pub fn tag_attribute_name() -> (name: &'static str)
    ensures
        name@ == tag_attribute(),
{
    "com.apple.metadata:_kMDItemUserTags"
}

/// The tags in the value of a file's tag attribute. A file without the attribute has no
/// tags. `None` tells that the value is no list of strings.
pub fn get_file_tags(attribute: Option<&[u8]>) -> (tags: Option<Vec<String>>)
    ensures
        match attribute {
            None => tags is Some && texts(tags->0@) == Seq::<Seq<char>>::empty(),
            Some(bytes) => match tags {
                Some(list) => plist_tags(bytes@) == Some(texts(list@)),
                None => plist_tags(bytes@) is None,
            },
        },
{
    match attribute {
        None => {
            let tags: Vec<String> = Vec::new();
            assert(texts(tags@) =~= Seq::<Seq<char>>::empty());
            Some(tags)
        },
        Some(bytes) => decode_tags(bytes),
    }
}

/// The value of the tag attribute that stores `tags`, or `None` where they cannot be
/// encoded.
pub fn tag_attribute_value(tags: &Vec<String>) -> (bytes: Option<Vec<u8>>)
    ensures
        match bytes {
            Some(written) => plist_binary(texts(tags@)) == Some(written@),
            None => plist_binary(texts(tags@)) is None,
        },
{
    encode_tags(tags)
}

/// Whether the drop marker is among a file's tags.
pub fn has_file_drop_attr(tags: &Vec<String>) -> (marked: bool)
    ensures
        marked == texts(tags@).contains(drop_tag()),
{
    let wanted = String::from_str("Dropped\n1");
    contains_text(tags, &wanted)
}

/// The tags to write so that the drop marker is set: the file's tags with the marker added
/// at the end. `None` where the marker is set already and nothing is to be written.
pub fn set_file_drop_attr(tags: &Vec<String>) -> (update: Option<Vec<String>>)
    ensures
        match update {
            Some(list) => tags_when_set(texts(tags@)) == Some(texts(list@)),
            None => tags_when_set(texts(tags@)) is None,
        },
{
    if has_file_drop_attr(tags) {
        None
    } else {
        let mut list = tags.clone();
        assert(texts(list@) =~= texts(tags@)) by {
            assert(list@ =~= tags@);
        }
        let marker = String::from_str("Dropped\n1");
        proof {
            crate::text::lemma_texts_push(list@, marker);
        }
        list.push(marker);
        Some(list)
    }
}

/// The tags to write so that the drop marker is clear: the file's tags without the marker,
/// every other tag in its place. `None` where the marker is clear already and nothing is to
/// be written.
pub fn unset_file_drop_attr(tags: &Vec<String>) -> (update: Option<Vec<String>>)
    ensures
        match update {
            Some(list) => tags_when_cleared(texts(tags@)) == Some(texts(list@)),
            None => tags_when_cleared(texts(tags@)) is None,
        },
{
    if !has_file_drop_attr(tags) {
        return None;
    }
    let mut list: Vec<String> = Vec::new();
    let mut i: usize = 0;
    proof {
        reveal(Seq::filter);
        assert(texts(tags@).take(0) =~= Seq::<Seq<char>>::empty());
        assert(texts(list@) =~= Seq::<Seq<char>>::empty());
    }
    while i < tags.len()
        invariant
            i <= tags.len(),
            texts(list@) == texts(tags@).take(i as int).filter(is_other_tag()),
        decreases tags.len() - i,
    {
        proof {
            let seen = texts(tags@).take(i as int);
            assert(texts(tags@).take(i + 1) =~= seen.push(tags@[i as int]@));
            seen.lemma_filter_push(tags@[i as int]@, is_other_tag());
        }
        if !same_text(tags[i].as_str(), "Dropped\n1") {
            let tag = tags[i].clone();
            proof {
                crate::text::lemma_texts_push(list@, tag);
            }
            list.push(tag);
        }
        i += 1;
    }
    assert(texts(tags@).take(tags.len() as int) =~= texts(tags@));
    Some(list)
}

/// The line that reports a change of the marker of the file at `path` in the log.
pub fn marker_log_line(set: bool, path: &str, failure: Option<&str>) -> (line: String)
    ensures
        line@ == marker_line(
            set,
            path@,
            match failure {
                Some(reason) => Some(reason@),
                None => None,
            },
        ),
{
    let mut line = if set {
        String::from_str("set-drop ")
    } else {
        String::from_str("unset-drop ")
    };
    line.append(path);
    match failure {
        None => {
            line.append(" ok");
        },
        Some(reason) => {
            line.append(" not ok (");
            line.append(reason);
            line.append(")");
            assert(line@ =~= marker_line(set, path@, Some(reason@)));
        },
    }
    line
}

} // verus!
