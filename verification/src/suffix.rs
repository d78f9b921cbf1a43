//! The type and creator of a file by the extension of its name.
use crate::bytes::array_of;
use crate::text;
use crate::text::{ascii_bytes, same_bytes};
use vstd::prelude::*;
use vstd::slice::slice_subrange;

verus! {

/// `.`
pub const DOT: u8 = 0x2e;

/// `s` is the part of `path` behind its last dot, or `None` if there is no dot.
pub open spec fn is_suffix(path: Seq<u8>, s: Option<Seq<u8>>) -> bool {
    match s {
        Some(s) => exists|i: int|
            #![trigger path[i]]
            0 <= i < path.len() && path[i] == DOT && s == path.subrange(i + 1, path.len() as int)
                && forall|j: int| i < j < path.len() ==> path[j] != DOT,
        None => forall|j: int| 0 <= j < path.len() ==> path[j] != DOT,
    }
}

/// The type and creator of files with no known extension.
pub open spec fn unknown() -> Seq<u8> {
    text::ascii("TEXTR*ch"@)
}

/// The type and creator that an extension stands for. Case counts.
pub open spec fn known(s: Seq<u8>) -> Seq<u8> {
    if s == text::ascii("jpg"@) || s == text::ascii("jpeg"@) {
        text::ascii("JPEGGKON"@)
    } else if s == text::ascii("png"@) {
        text::ascii("PNGfGKON"@)
    } else if s == text::ascii("gif"@) {
        text::ascii("GIFfGKON"@)
    } else if s == text::ascii("mp3"@) || s == text::ascii("mp2"@) {
        text::ascii("MP3 MAmp"@)
    } else if s == text::ascii("mpg"@) || s == text::ascii("mpeg"@) {
        text::ascii("MPEGTVOD"@)
    } else if s == text::ascii("mov"@) {
        text::ascii("MooVTVOD"@)
    } else if s == text::ascii("sit"@) {
        text::ascii("SITDSIT!"@)
    } else if s == text::ascii("zip"@) || s == text::ascii("pk3"@) {
        text::ascii("ZIP ZIP "@)
    } else if s == text::ascii("app"@) || s == text::ascii("sea"@) {
        text::ascii("APPLpeff"@)
    } else if s == text::ascii("img"@) {
        text::ascii("rohdWrap"@)
    } else if s == text::ascii("pict"@) {
        text::ascii("PICTGKON"@)
    } else {
        unknown()
    }
}

/// The part of `path` behind its last dot, or `None` if there is no dot.
fn suffix(path: &[u8]) -> (r: Option<&[u8]>)
    ensures
        is_suffix(
            path@,
            match r {
                Some(s) => Some(s@),
                None => None,
            },
        ),
{
    let mut i: usize = path.len();
    while i > 0
        invariant
            i <= path@.len(),
            forall|j: int| i <= j < path@.len() ==> path@[j] != DOT,
        decreases i,
    {
        i = i - 1;
        if path[i] == DOT {
            return Some(slice_subrange(path, i + 1, path.len()));
        }
    }
    None
}

/// The type and creator that a path has by its extension.
pub open spec fn type_creator_of(path: Seq<u8>) -> Seq<u8> {
    if exists|s: Seq<u8>| is_suffix(path, Some(s)) {
        known(choose|s: Seq<u8>| is_suffix(path, Some(s)))
    } else {
        unknown()
    }
}

/// A path has one extension at most, which decides its type and creator.
pub proof fn extension_decides(path: Seq<u8>, s: Option<Seq<u8>>)
    requires
        is_suffix(path, s),
    ensures
        type_creator_of(path) == (match s {
            Some(s) => known(s),
            None => unknown(),
        }),
{
    match s {
        Some(s) => {
            let c = choose|c: Seq<u8>| is_suffix(path, Some(c));
            assert(is_suffix(path, Some(c)));
            assert(c == s);
        },
        None => {},
    }
}

/// Type and creator are eight bytes.
pub proof fn type_creator_len(path: Seq<u8>)
    ensures
        type_creator_of(path).len() == 8,
{
    reveal_strlit("TEXTR*ch");
    reveal_strlit("JPEGGKON");
    reveal_strlit("PNGfGKON");
    reveal_strlit("GIFfGKON");
    reveal_strlit("MP3 MAmp");
    reveal_strlit("MPEGTVOD");
    reveal_strlit("MooVTVOD");
    reveal_strlit("SITDSIT!");
    reveal_strlit("ZIP ZIP ");
    reveal_strlit("APPLpeff");
    reveal_strlit("rohdWrap");
    reveal_strlit("PICTGKON");
}

/// A type and a creator, written out.
fn code(s: &str) -> (r: [u8; 8])
    requires
        s.is_ascii(),
        s@.len() == 8,
    ensures
        r@ == text::ascii(s@),
{
    array_of::<8>(ascii_bytes(s))
}

/// The type and creator that a path has by its extension.
pub fn suffix_type_creator(path: &[u8]) -> (r: [u8; 8])
    ensures
        r@ == type_creator_of(path@),
{
    proof {
        reveal_strlit("TEXTR*ch");
        reveal_strlit("jpg");
        reveal_strlit("jpeg");
        reveal_strlit("JPEGGKON");
        reveal_strlit("png");
        reveal_strlit("PNGfGKON");
        reveal_strlit("gif");
        reveal_strlit("GIFfGKON");
        reveal_strlit("mp3");
        reveal_strlit("mp2");
        reveal_strlit("MP3 MAmp");
        reveal_strlit("mpg");
        reveal_strlit("mpeg");
        reveal_strlit("MPEGTVOD");
        reveal_strlit("mov");
        reveal_strlit("MooVTVOD");
        reveal_strlit("sit");
        reveal_strlit("SITDSIT!");
        reveal_strlit("zip");
        reveal_strlit("pk3");
        reveal_strlit("ZIP ZIP ");
        reveal_strlit("app");
        reveal_strlit("sea");
        reveal_strlit("APPLpeff");
        reveal_strlit("img");
        reveal_strlit("rohdWrap");
        reveal_strlit("pict");
        reveal_strlit("PICTGKON");
    }
    let s = match suffix(path) {
        Some(s) => s,
        None => {
            proof {
                extension_decides(path@, None);
            }
            return code("TEXTR*ch");
        },
    };
    proof {
        extension_decides(path@, Some(s@));
    }
    if same_bytes(s, ascii_bytes("jpg")) || same_bytes(s, ascii_bytes("jpeg")) {
        code("JPEGGKON")
    } else if same_bytes(s, ascii_bytes("png")) {
        code("PNGfGKON")
    } else if same_bytes(s, ascii_bytes("gif")) {
        code("GIFfGKON")
    } else if same_bytes(s, ascii_bytes("mp3")) || same_bytes(s, ascii_bytes("mp2")) {
        code("MP3 MAmp")
    } else if same_bytes(s, ascii_bytes("mpg")) || same_bytes(s, ascii_bytes("mpeg")) {
        code("MPEGTVOD")
    } else if same_bytes(s, ascii_bytes("mov")) {
        code("MooVTVOD")
    } else if same_bytes(s, ascii_bytes("sit")) {
        code("SITDSIT!")
    } else if same_bytes(s, ascii_bytes("zip")) || same_bytes(s, ascii_bytes("pk3")) {
        code("ZIP ZIP ")
    } else if same_bytes(s, ascii_bytes("app")) || same_bytes(s, ascii_bytes("sea")) {
        code("APPLpeff")
    } else if same_bytes(s, ascii_bytes("img")) {
        code("rohdWrap")
    } else if same_bytes(s, ascii_bytes("pict")) {
        code("PICTGKON")
    } else {
        code("TEXTR*ch")
    }
}

/// The extensions that are known, and what they stand for. An extension is what follows the last
/// dot; its case counts, and whatever stands in front of the dot does not.
pub proof fn extensions_stand_for_types(path: &[u8], r: [u8; 8], dir: Seq<u8>, ext: Seq<u8>)
    requires
        call_ensures(suffix_type_creator, (path,), r),
        path@ == dir.push(0x2e) + ext,
        !ext.contains(0x2e),
    ensures
        (ext == seq![0x6au8, 0x70, 0x67] || ext == seq![0x6au8, 0x70, 0x65, 0x67]) ==> r@ == seq![0x4au8, 0x50, 0x45, 0x47, 0x47, 0x4b, 0x4f, 0x4e],
        ext == seq![0x70u8, 0x6e, 0x67] ==> r@ == seq![0x50u8, 0x4e, 0x47, 0x66, 0x47, 0x4b, 0x4f, 0x4e],
        ext == seq![0x67u8, 0x69, 0x66] ==> r@ == seq![0x47u8, 0x49, 0x46, 0x66, 0x47, 0x4b, 0x4f, 0x4e],
        (ext == seq![0x6du8, 0x70, 0x33] || ext == seq![0x6du8, 0x70, 0x32]) ==> r@ == seq![0x4du8, 0x50, 0x33, 0x20, 0x4d, 0x41, 0x6d, 0x70],
        (ext == seq![0x6du8, 0x70, 0x67] || ext == seq![0x6du8, 0x70, 0x65, 0x67]) ==> r@ == seq![0x4du8, 0x50, 0x45, 0x47, 0x54, 0x56, 0x4f, 0x44],
        ext == seq![0x6du8, 0x6f, 0x76] ==> r@ == seq![0x4du8, 0x6f, 0x6f, 0x56, 0x54, 0x56, 0x4f, 0x44],
        ext == seq![0x73u8, 0x69, 0x74] ==> r@ == seq![0x53u8, 0x49, 0x54, 0x44, 0x53, 0x49, 0x54, 0x21],
        (ext == seq![0x7au8, 0x69, 0x70] || ext == seq![0x70u8, 0x6b, 0x33]) ==> r@ == seq![0x5au8, 0x49, 0x50, 0x20, 0x5a, 0x49, 0x50, 0x20],
        (ext == seq![0x61u8, 0x70, 0x70] || ext == seq![0x73u8, 0x65, 0x61]) ==> r@ == seq![0x41u8, 0x50, 0x50, 0x4c, 0x70, 0x65, 0x66, 0x66],
        ext == seq![0x69u8, 0x6d, 0x67] ==> r@ == seq![0x72u8, 0x6f, 0x68, 0x64, 0x57, 0x72, 0x61, 0x70],
        ext == seq![0x70u8, 0x69, 0x63, 0x74] ==> r@ == seq![0x50u8, 0x49, 0x43, 0x54, 0x47, 0x4b, 0x4f, 0x4e],
        ext != seq![0x6au8, 0x70, 0x67] && ext != seq![0x6au8, 0x70, 0x65, 0x67] && ext != seq![0x70u8, 0x6e, 0x67] && ext != seq![0x67u8, 0x69, 0x66] && ext != seq![0x6du8, 0x70, 0x33] && ext != seq![0x6du8, 0x70, 0x32] && ext != seq![0x6du8, 0x70, 0x67] && ext != seq![0x6du8, 0x70, 0x65, 0x67] && ext != seq![0x6du8, 0x6f, 0x76] && ext != seq![0x73u8, 0x69, 0x74] && ext != seq![0x7au8, 0x69, 0x70] && ext != seq![0x70u8, 0x6b, 0x33] && ext != seq![0x61u8, 0x70, 0x70] && ext != seq![0x73u8, 0x65, 0x61] && ext != seq![0x69u8, 0x6d, 0x67] && ext != seq![0x70u8, 0x69, 0x63, 0x74] ==> r@ == seq![0x54u8, 0x45, 0x58, 0x54, 0x52, 0x2a, 0x63, 0x68],
{
    reveal_strlit("jpg");
    reveal_strlit("jpeg");
    reveal_strlit("png");
    reveal_strlit("gif");
    reveal_strlit("mp3");
    reveal_strlit("mp2");
    reveal_strlit("mpg");
    reveal_strlit("mpeg");
    reveal_strlit("mov");
    reveal_strlit("sit");
    reveal_strlit("zip");
    reveal_strlit("pk3");
    reveal_strlit("app");
    reveal_strlit("sea");
    reveal_strlit("img");
    reveal_strlit("pict");
    reveal_strlit("JPEGGKON");
    reveal_strlit("PNGfGKON");
    reveal_strlit("GIFfGKON");
    reveal_strlit("MP3 MAmp");
    reveal_strlit("MPEGTVOD");
    reveal_strlit("MooVTVOD");
    reveal_strlit("SITDSIT!");
    reveal_strlit("ZIP ZIP ");
    reveal_strlit("APPLpeff");
    reveal_strlit("rohdWrap");
    reveal_strlit("PICTGKON");
    reveal_strlit("TEXTR*ch");
    assert(text::ascii("jpg"@) =~= seq![0x6au8, 0x70, 0x67]);
    assert(text::ascii("jpeg"@) =~= seq![0x6au8, 0x70, 0x65, 0x67]);
    assert(text::ascii("png"@) =~= seq![0x70u8, 0x6e, 0x67]);
    assert(text::ascii("gif"@) =~= seq![0x67u8, 0x69, 0x66]);
    assert(text::ascii("mp3"@) =~= seq![0x6du8, 0x70, 0x33]);
    assert(text::ascii("mp2"@) =~= seq![0x6du8, 0x70, 0x32]);
    assert(text::ascii("mpg"@) =~= seq![0x6du8, 0x70, 0x67]);
    assert(text::ascii("mpeg"@) =~= seq![0x6du8, 0x70, 0x65, 0x67]);
    assert(text::ascii("mov"@) =~= seq![0x6du8, 0x6f, 0x76]);
    assert(text::ascii("sit"@) =~= seq![0x73u8, 0x69, 0x74]);
    assert(text::ascii("zip"@) =~= seq![0x7au8, 0x69, 0x70]);
    assert(text::ascii("pk3"@) =~= seq![0x70u8, 0x6b, 0x33]);
    assert(text::ascii("app"@) =~= seq![0x61u8, 0x70, 0x70]);
    assert(text::ascii("sea"@) =~= seq![0x73u8, 0x65, 0x61]);
    assert(text::ascii("img"@) =~= seq![0x69u8, 0x6d, 0x67]);
    assert(text::ascii("pict"@) =~= seq![0x70u8, 0x69, 0x63, 0x74]);
    assert(text::ascii("JPEGGKON"@) =~= seq![0x4au8, 0x50, 0x45, 0x47, 0x47, 0x4b, 0x4f, 0x4e]);
    assert(text::ascii("PNGfGKON"@) =~= seq![0x50u8, 0x4e, 0x47, 0x66, 0x47, 0x4b, 0x4f, 0x4e]);
    assert(text::ascii("GIFfGKON"@) =~= seq![0x47u8, 0x49, 0x46, 0x66, 0x47, 0x4b, 0x4f, 0x4e]);
    assert(text::ascii("MP3 MAmp"@) =~= seq![0x4du8, 0x50, 0x33, 0x20, 0x4d, 0x41, 0x6d, 0x70]);
    assert(text::ascii("MPEGTVOD"@) =~= seq![0x4du8, 0x50, 0x45, 0x47, 0x54, 0x56, 0x4f, 0x44]);
    assert(text::ascii("MooVTVOD"@) =~= seq![0x4du8, 0x6f, 0x6f, 0x56, 0x54, 0x56, 0x4f, 0x44]);
    assert(text::ascii("SITDSIT!"@) =~= seq![0x53u8, 0x49, 0x54, 0x44, 0x53, 0x49, 0x54, 0x21]);
    assert(text::ascii("ZIP ZIP "@) =~= seq![0x5au8, 0x49, 0x50, 0x20, 0x5a, 0x49, 0x50, 0x20]);
    assert(text::ascii("APPLpeff"@) =~= seq![0x41u8, 0x50, 0x50, 0x4c, 0x70, 0x65, 0x66, 0x66]);
    assert(text::ascii("rohdWrap"@) =~= seq![0x72u8, 0x6f, 0x68, 0x64, 0x57, 0x72, 0x61, 0x70]);
    assert(text::ascii("PICTGKON"@) =~= seq![0x50u8, 0x49, 0x43, 0x54, 0x47, 0x4b, 0x4f, 0x4e]);
    assert(text::ascii("TEXTR*ch"@) =~= seq![0x54u8, 0x45, 0x58, 0x54, 0x52, 0x2a, 0x63, 0x68]);
    lemma_extension(dir, ext);
}

/// A name without a dot is plain text.
pub proof fn no_extension_is_plain_text(path: &[u8], r: [u8; 8])
    requires
        call_ensures(suffix_type_creator, (path,), r),
        !path@.contains(0x2e),
    ensures
        r@ == seq![0x54u8, 0x45, 0x58, 0x54, 0x52, 0x2a, 0x63, 0x68],
{
    reveal_strlit("TEXTR*ch");
    assert(text::ascii("TEXTR*ch"@) =~= seq![0x54u8, 0x45, 0x58, 0x54, 0x52, 0x2a, 0x63, 0x68]);
    assert forall|j: int| 0 <= j < path@.len() implies path@[j] != DOT by {
        assert(path@.contains(path@[j]));
    }
    extension_decides(path@, None);
}

proof fn lemma_extension(dir: Seq<u8>, ext: Seq<u8>)
    requires
        !ext.contains(0x2e),
    ensures
        type_creator_of(dir.push(0x2e) + ext) == known(ext),
{
    let path = dir.push(0x2e) + ext;
    let i = dir.len() as int;
    assert(path[i] == DOT);
    assert(path.subrange(i + 1, path.len() as int) =~= ext);
    assert forall|j: int| i < j < path.len() implies path[j] != DOT by {
        assert(path[j] == ext[j - i - 1]);
        assert(ext.contains(ext[j - i - 1]));
    }
    extension_decides(path, Some(ext));
}

} // verus!
