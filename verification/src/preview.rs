//! How a stored file is previewed: the coarse preview class derived from
//! its MIME type, and the cases that are always served raw.
use vstd::prelude::*;

use crate::file::File;
use crate::text::{bytes_contains, bytes_eq, contains_sub, lower_bytes};

verus! {

use vstd::slice::{slice_subrange, slice_index_get};
use vstd::string::StringSliceAdditionalSpecFns;

/// The coarse preview classes.
#[derive(Clone, Copy, Debug, PartialEq, Eq, Structural)]
pub enum PreviewType {
    Text,
    Image,
    Video,
    Fallback,
}

/// The bytes of a MIME type before its first slash; the whole value when
/// there is none.
pub open spec fn slash_prefix(b: Seq<u8>) -> Seq<u8>
    decreases b.len(),
{
    if b.len() == 0 {
        b
    } else if b[0] == 47 {
        Seq::empty()
    } else {
        seq![b[0]] + slash_prefix(b.skip(1))
    }
}

/// The preview class a MIME type is shown with.
pub open spec fn spec_preview_type(t: Seq<char>) -> PreviewType {
    let pre = slash_prefix(vstd::utf8::encode_utf8(t));
    if pre == "image".spec_bytes() {
        PreviewType::Image
    } else if pre == "video".spec_bytes() {
        PreviewType::Video
    } else if pre == "text".spec_bytes() {
        PreviewType::Text
    } else {
        PreviewType::Fallback
    }
}

/// Everything before the first slash is the prefix of the value.
proof fn lemma_slash_prefix(b: Seq<u8>, i: int)
    requires
        0 <= i <= b.len(),
        forall|k: int| 0 <= k < i ==> b[k] != 47,
        i == b.len() || b[i] == 47,
    ensures
        slash_prefix(b) == b.take(i),
    decreases i,
{
    if b.len() == 0 {
        assert(b.take(i) =~= b);
    } else if i == 0 {
        if b[0] == 47 {
            assert(b.take(0) =~= Seq::<u8>::empty());
        } else {
            assert(i == b.len() || b[i] == 47);
            assert(b.take(0) =~= Seq::<u8>::empty());
            assert(b.len() > 0 && i == 0 && i != b.len() ==> b[0] == 47);
        }
    } else {
        let rest = b.skip(1);
        lemma_slash_prefix(rest, i - 1);
        assert(seq![b[0]] + rest.take(i - 1) =~= b.take(i));
    }
}

/// The preview class of a file, decided by its MIME type's leading
/// component.
pub fn get_preview_type(file: &File) -> (r: PreviewType)
    ensures
        r == spec_preview_type(file.file_type@),
{
    let bytes = file.file_type.as_str().as_bytes();
    let mut i: usize = 0;
    while i < bytes.len() && *slice_index_get(bytes, i) != 47
        invariant
            i <= bytes@.len(),
            forall|k: int| 0 <= k < i ==> bytes@[k] != 47,
        decreases bytes@.len() - i,
    {
        i += 1;
    }
    proof {
        lemma_slash_prefix(bytes@, i as int);
    }
    let pre = slice_subrange(bytes, 0, i);
    proof {
        assert(bytes@.take(i as int) =~= bytes@.subrange(0, i as int));
    }
    if bytes_eq(pre, "image".as_bytes()) {
        PreviewType::Image
    } else if bytes_eq(pre, "video".as_bytes()) {
        PreviewType::Video
    } else if bytes_eq(pre, "text".as_bytes()) {
        PreviewType::Text
    } else {
        PreviewType::Fallback
    }
}

/// Return true if a file is previewed raw rather than through the viewer:
/// PDFs and audio are always served as they are.
pub fn is_raw_preview_file(file: &File) -> (r: bool)
    ensures
        r == (contains_sub(vstd::utf8::encode_utf8(file.file_type@), "application/pdf".spec_bytes())
            || contains_sub(vstd::utf8::encode_utf8(file.file_type@), "audio".spec_bytes())),
{
    let bytes = file.file_type.as_str().as_bytes();
    bytes_contains(bytes, "application/pdf".as_bytes()) || bytes_contains(
        bytes,
        "audio".as_bytes(),
    )
}

/// The agent, lowercased ASCII-wise, names one of the configured raw
/// agents.
pub open spec fn agent_matches(agent: Seq<char>, list: Seq<String>) -> bool {
    exists|i: int|
        0 <= i < list.len() && contains_sub(
            lower_bytes(vstd::utf8::encode_utf8(agent)),
            vstd::utf8::encode_utf8((#[trigger] list[i])@),
        )
}

/// Whether the requesting user agent is one that always gets raw files:
/// a non-empty agent, lowercased ASCII-wise, naming one of the configured
/// raw agents.
pub fn check_is_raw_agent(agent: Option<&String>, raw_agents: &Option<Vec<String>>) -> (r: bool)
    ensures
        r == (match (agent, raw_agents) {
            (Some(a), Some(list)) => a@.len() > 0 && agent_matches(a@, list@),
            _ => false,
        }),
{
    let list = match raw_agents {
        Some(list) => list,
        None => {
            return false;
        },
    };
    let a = match agent {
        Some(a) => a,
        None => {
            return false;
        },
    };
    if a.as_str().is_empty() {
        return false;
    }
    let lowered = crate::text::ascii_lower(&vstd::slice::slice_to_vec(a.as_str().as_bytes()));
    let mut i: usize = 0;
    while i < list.len()
        invariant
            i <= list@.len(),
            lowered@ == lower_bytes(vstd::utf8::encode_utf8(a@)),
            a@.len() > 0,
            forall|k: int|
                0 <= k < i ==> !contains_sub(
                    lower_bytes(vstd::utf8::encode_utf8(a@)),
                    vstd::utf8::encode_utf8((#[trigger] list@[k])@),
                ),
            raw_agents matches Some(l) && l@ == list@,
            agent matches Some(x) && x@ == a@,
        decreases list@.len() - i,
    {
        if bytes_contains(lowered.as_slice(), list[i].as_str().as_bytes()) {
            proof {
                assert(contains_sub(
                    lower_bytes(vstd::utf8::encode_utf8(a@)),
                    vstd::utf8::encode_utf8(list@[i as int]@),
                ));
                assert(agent_matches(a@, list@));
            }
            return true;
        }
        i += 1;
    }
    proof {
        if agent_matches(a@, list@) {
            let w = choose|w: int|
                0 <= w < list@.len() && contains_sub(
                    lower_bytes(vstd::utf8::encode_utf8(a@)),
                    vstd::utf8::encode_utf8((#[trigger] list@[w])@),
                );
        }
    }
    false
}

} // verus!
