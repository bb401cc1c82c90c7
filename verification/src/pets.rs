//! Pet ids, window labels, resource paths and their media types.
use vstd::prelude::*;

use crate::encoding::{base64_text, encode_base64};
use crate::text::{byte_len, chars_of, str_eq, strip_prefix, starts_with, utf8_len};

verus! {

/// A character allowed in an id: an ASCII letter or digit, `-` or `_`.
pub open spec fn id_char(c: char) -> bool {
    ('a' <= c && c <= 'z') || ('A' <= c && c <= 'Z') || ('0' <= c && c <= '9') || c == '-' || c
        == '_'
}

/// A safe id: not empty, at most 64 bytes, made of id characters.
pub open spec fn safe_id(s: Seq<char>) -> bool {
    s.len() > 0 && utf8_len(s) <= 64 && forall|i: int| 0 <= i < s.len() ==> id_char(#[trigger] s[i])
}

fn is_id_char(c: char) -> (b: bool)
    ensures
        b == id_char(c),
{
    ('a' <= c && c <= 'z') || ('A' <= c && c <= 'Z') || ('0' <= c && c <= '9') || c == '-' || c
        == '_'
}

/// Whether `value` may name a pet or an instance.
pub fn is_safe_id(value: &str) -> (b: bool)
    ensures
        b == safe_id(value@),
{
    let v = chars_of(value);
    if v.len() == 0 || byte_len(value) > 64 {
        return false;
    }
    let mut i: usize = 0;
    while i < v.len()
        invariant
            v@ == value@,
            0 <= i <= v@.len(),
            forall|j: int| 0 <= j < i ==> id_char(#[trigger] v@[j]),
        decreases v@.len() - i,
    {
        if !is_id_char(v[i]) {
            assert(!id_char(value@[i as int]));
            return false;
        }
        i = i + 1;
    }
    true
}

/// `s.split(sep)`: the parts between separators, in order; there is always
/// at least one.
pub open spec fn split_parts(s: Seq<char>, sep: char) -> Seq<Seq<char>>
    decreases s.len(),
{
    if s.len() == 0 {
        seq![Seq::<char>::empty()]
    } else {
        let p = split_parts(s.drop_last(), sep);
        if s.last() == sep {
            p.push(Seq::<char>::empty())
        } else {
            p.update(p.len() - 1, p.last().push(s.last()))
        }
    }
}

pub proof fn lemma_split_parts_len(s: Seq<char>, sep: char)
    ensures
        split_parts(s, sep).len() >= 1,
    decreases s.len(),
{
    if s.len() > 0 {
        lemma_split_parts_len(s.drop_last(), sep);
    }
}

/// A part of a safe relative path: not empty, not `.` and not `..`.
pub open spec fn part_ok(p: Seq<char>) -> bool {
    p.len() > 0 && p != seq!['.'] && p != seq!['.', '.']
}

/// A relative path made of proper parts: not empty, and no part of its
/// `/`-split is empty, `.` or `..`.
pub open spec fn parts_ok(s: Seq<char>) -> bool {
    s.len() > 0 && forall|k: int|
        0 <= k < split_parts(s, '/').len() ==> part_ok(#[trigger] split_parts(s, '/')[k])
}

/// Whether the segment `v[start..end]` is a proper part.
fn segment_ok(v: &Vec<char>, start: usize, end: usize) -> (b: bool)
    requires
        start <= end <= v@.len(),
    ensures
        b == part_ok(v@.subrange(start as int, end as int)),
{
    let ghost seg = v@.subrange(start as int, end as int);
    if end == start {
        return false;
    }
    if end - start == 1 && v[start] == '.' {
        assert(seg =~= seq!['.']);
        return false;
    }
    if end - start == 2 && v[start] == '.' && v[start + 1] == '.' {
        assert(seg =~= seq!['.', '.']);
        return false;
    }
    assert(seg != seq!['.']) by {
        if seg == seq!['.'] {
            assert(seg.len() == 1);
            assert(seg[0] == '.');
            assert(v@[start as int] == seg[0]);
        }
    }
    assert(seg != seq!['.', '.']) by {
        if seg == seq!['.', '.'] {
            assert(seg.len() == 2);
            assert(seg[0] == '.' && seg[1] == '.');
            assert(v@[start as int] == seg[0]);
            assert(v@[start + 1] == seg[1]);
        }
    }
    true
}

/// The relative-path check with the platform's answer to "is it absolute"
/// given: a safe relative path is not absolute and has proper parts.
pub fn relative_path_ok(value: &str, absolute: bool) -> (b: bool)
    ensures
        b == (!absolute && parts_ok(value@)),
{
    if absolute {
        return false;
    }
    let v = chars_of(value);
    if v.len() == 0 {
        return false;
    }
    let mut start: usize = 0;
    let mut i: usize = 0;
    while i < v.len()
        invariant
            v@ == value@,
            0 <= start <= i <= v@.len(),
            ({
                let p = split_parts(v@.take(i as int), '/');
                &&& p.len() >= 1
                &&& p.last() == v@.subrange(start as int, i as int)
                &&& forall|k: int| 0 <= k < p.len() - 1 ==> part_ok(#[trigger] p[k])
            }),
        decreases v@.len() - i,
    {
        let ghost before = split_parts(v@.take(i as int), '/');
        assert(v@.take(i + 1).drop_last() =~= v@.take(i as int));
        assert(v@.take(i + 1).last() == v@[i as int]);
        if v[i] == '/' {
            let ghost after = split_parts(v@.take(i + 1), '/');
            assert(after == before.push(Seq::<char>::empty()));
            if !segment_ok(&v, start, i) {
                proof {
                    let whole = split_parts(v@, '/');
                    lemma_split_prefix_parts(v@, i as int + 1, '/');
                    assert(whole[before.len() - 1] == after[before.len() - 1]);
                    assert(!part_ok(whole[before.len() - 1]));
                }
                return false;
            }
            start = i + 1;
            assert(v@.subrange(start as int, i + 1) =~= Seq::<char>::empty());
        } else {
            let ghost after = split_parts(v@.take(i + 1), '/');
            assert(after == before.update(before.len() - 1, before.last().push(v@[i as int])));
            assert(v@.subrange(start as int, i + 1) =~= v@.subrange(start as int, i as int).push(
                v@[i as int],
            ));
        }
        i = i + 1;
    }
    assert(v@.take(v@.len() as int) =~= v@);
    segment_ok(&v, start, i)
}

/// The parts of a prefix stay parts of the whole, but for the last one,
/// which may grow.
pub proof fn lemma_split_prefix_parts(s: Seq<char>, n: int, sep: char)
    requires
        0 <= n <= s.len(),
    ensures
        split_parts(s, sep).len() >= split_parts(s.take(n), sep).len(),
        forall|k: int|
            0 <= k < split_parts(s.take(n), sep).len() - 1 ==> #[trigger] split_parts(s, sep)[k]
                == split_parts(s.take(n), sep)[k],
    decreases s.len() - n,
{
    lemma_split_parts_len(s.take(n), sep);
    if n == s.len() {
        assert(s.take(n) =~= s);
    } else {
        lemma_split_prefix_parts(s, n + 1, sep);
        assert(s.take(n + 1).drop_last() =~= s.take(n));
    }
}

/// `s` starts with a separator (a slash or a backslash) or has a drive colon as its
/// second character: the only shapes that a platform may take for absolute.
pub open spec fn rooted_or_drive(s: Seq<char>) -> bool {
    (s.len() > 0 && (s[0] == '/' || s[0] == '\\')) || (s.len() >= 2 && s[1] == ':')
}

/// Calls `Path::new(value).is_absolute()`. What counts as absolute is the
/// platform's: std documents a root on Unix, and a prefix (two backslashes or a
/// drive `C:`) followed by a root on Windows. The contract states only what
/// holds on both: a path that starts with neither separator and has no
/// drive colon is not absolute. Which of the other paths are absolute is
/// left unsaid.
#[verifier::external_body]
fn path_is_absolute(value: &str) -> (b: bool)
    ensures
        !rooted_or_drive(value@) ==> !b,
{
    std::path::Path::new(value).is_absolute()
}

/// Whether `value` is a safe path inside a pet's folder: not absolute on
/// this platform, and every `/`-separated part is a proper name. Where the
/// platform plays no part (no leading separator, no drive colon), that is
/// exactly `parts_ok`.
pub fn is_safe_relative_path(value: &str) -> (b: bool)
    ensures
        b ==> parts_ok(value@),
        !rooted_or_drive(value@) ==> (b == parts_ok(value@)),
{
    let absolute = path_is_absolute(value);
    relative_path_ok(value, absolute)
}

pub open spec fn instance_label_prefix() -> Seq<char> {
    "pet-instance-"@
}

/// The window label of an instance: `main` for the main pet, otherwise
/// `pet-instance-{id}` for a safe id.
pub open spec fn label_of(instance_id: Seq<char>) -> Result<Seq<char>, Seq<char>> {
    if instance_id == "main"@ {
        Ok("main"@)
    } else if !safe_id(instance_id) {
        Err("invalid pet instance id"@)
    } else {
        Ok(instance_label_prefix() + instance_id)
    }
}

/// `instance_label`.
pub fn instance_label(instance_id: &str) -> (res: Result<String, String>)
    ensures
        match res {
            Ok(l) => label_of(instance_id@) == Ok::<Seq<char>, Seq<char>>(l@),
            Err(e) => label_of(instance_id@) == Err::<Seq<char>, Seq<char>>(e@),
        },
{
    if str_eq(instance_id, "main") {
        return Ok(String::from_str("main"));
    }
    if !is_safe_id(instance_id) {
        return Err(String::from_str("invalid pet instance id"));
    }
    let mut label = String::from_str("pet-instance-");
    label.append(instance_id);
    Ok(label)
}

/// The instance id of a window label: `main`, or what follows
/// `pet-instance-`.
pub open spec fn id_of_label(label: Seq<char>) -> Option<Seq<char>> {
    if label == "main"@ {
        Some("main"@)
    } else if instance_label_prefix().is_prefix_of(label) {
        Some(label.skip(instance_label_prefix().len() as int))
    } else {
        None
    }
}

/// `instance_id_from_label`.
pub fn instance_id_from_label(label: &str) -> (res: Option<String>)
    ensures
        match res {
            Some(id) => id_of_label(label@) == Some(id@),
            None => id_of_label(label@) is None,
        },
{
    if str_eq(label, "main") {
        return Some(String::from_str("main"));
    }
    strip_prefix(label, "pet-instance-")
}

/// `is_pet_window_label`: the main window or an instance window.
pub fn is_pet_window_label(label: &str) -> (b: bool)
    ensures
        b == (label@ == "main"@ || instance_label_prefix().is_prefix_of(label@)),
{
    str_eq(label, "main") || starts_with(label, "pet-instance-")
}

/// A window label leads back to its instance: for every id that has a
/// label, reading the label gives the id again, and the label is a pet
/// window's.
pub proof fn label_round_trip(instance_id: Seq<char>)
    requires
        label_of(instance_id) is Ok,
    ensures
        id_of_label(label_of(instance_id)->Ok_0) == Some(instance_id),
        ({
            let l = label_of(instance_id)->Ok_0;
            l == "main"@ || instance_label_prefix().is_prefix_of(l)
        }),
{
    if instance_id != "main"@ {
        let l = instance_label_prefix() + instance_id;
        assert(instance_label_prefix().is_prefix_of(l)) by {
            assert(l.subrange(0, instance_label_prefix().len() as int) =~= instance_label_prefix());
        }
        assert(l.skip(instance_label_prefix().len() as int) =~= instance_id);
        if l == "main"@ {
            assert(l.len() == 4) by {
                reveal_strlit("main");
            }
            assert(l.len() >= 13) by {
                reveal_strlit("pet-instance-");
            }
        }
    }
}

/// The media type of a file extension: `png`, `jpg`/`jpeg`, or WebP for
/// anything else.
pub open spec fn mime_of(extension: Option<Seq<char>>) -> Seq<char> {
    match extension {
        Some(e) => if e == "png"@ {
            "image/png"@
        } else if e == "jpg"@ || e == "jpeg"@ {
            "image/jpeg"@
        } else {
            "image/webp"@
        },
        None => "image/webp"@,
    }
}

/// The media type of an extension, as `mime_of` says.
pub fn mime_for_extension(extension: Option<&str>) -> (res: &'static str)
    ensures
        res@ == mime_of(
            match extension {
                Some(e) => Some(e@),
                None => None,
            },
        ),
{
    match extension {
        Some(e) => if str_eq(e, "png") {
            "image/png"
        } else if str_eq(e, "jpg") || str_eq(e, "jpeg") {
            "image/jpeg"
        } else {
            "image/webp"
        },
        None => "image/webp",
    }
}

/// A path that every platform splits the same way: it holds no backslash
/// and no colon and does not open with two slashes (which Windows may read
/// as a `\\server\share` prefix), so `/` alone separates its parts and it
/// has no prefix.
pub open spec fn plain_path(s: Seq<char>) -> bool {
    &&& !s.contains('\\')
    &&& !s.contains(':')
    &&& !(s.len() >= 2 && s[0] == '/' && s[1] == '/')
}

/// The last of `parts` that is neither empty nor `.`: the path's last
/// component once repeated separators and `.` are left out.
pub open spec fn last_named_part(parts: Seq<Seq<char>>) -> Option<Seq<char>>
    decreases parts.len(),
{
    if parts.len() == 0 {
        None
    } else if parts.last().len() == 0 || parts.last() == seq!['.'] {
        last_named_part(parts.drop_last())
    } else {
        Some(parts.last())
    }
}

/// `Path::file_name` of a plain path: its last component, unless that is
/// `..` or there is none.
pub open spec fn file_name_of(s: Seq<char>) -> Option<Seq<char>> {
    match last_named_part(split_parts(s, '/')) {
        Some(p) => if p == seq!['.', '.'] {
            None
        } else {
            Some(p)
        },
        None => None,
    }
}

/// The index of the last `.` of `s`, or -1 when there is none.
pub open spec fn last_dot(s: Seq<char>) -> int
    decreases s.len(),
{
    if s.len() == 0 {
        -1
    } else if s.last() == '.' {
        s.len() - 1
    } else {
        last_dot(s.drop_last())
    }
}

/// `Path::extension` of a plain path: what follows the last `.` of the file
/// name, unless there is no `.` or the only one opens the name.
pub open spec fn extension_of(s: Seq<char>) -> Option<Seq<char>> {
    match file_name_of(s) {
        Some(name) => if last_dot(name) <= 0 {
            None
        } else {
            Some(name.skip(last_dot(name) + 1))
        },
        None => None,
    }
}

/// Calls `Path::new(path).extension()` and keeps it as text (a `&str`'s
/// extension is always text). std documents the extension as the part of
/// the file name after its final `.`: none without a file name, without a
/// `.`, or when the name's only `.` opens it. On a plain path every
/// platform finds the same file name, so the contract states that rule
/// there; elsewhere it claims only what holds everywhere: an extension
/// holds no `.`.
#[verifier::external_body]
fn path_extension(path: &str) -> (res: Option<String>)
    ensures
        res matches Some(e) ==> !e@.contains('.'),
        plain_path(path@) ==> match res {
            Some(e) => extension_of(path@) == Some(e@),
            None => extension_of(path@) is None,
        },
{
    std::path::Path::new(path).extension().and_then(|e| e.to_str()).map(|e| e.to_string())
}

/// `mime_for_path`: the media type of the path's extension.
pub fn mime_for_path(path: &str) -> (res: &'static str)
    ensures
        exists|e: Option<Seq<char>>| res@ == mime_of(e) && (e matches Some(t) ==> !t.contains('.')),
        plain_path(path@) ==> res@ == mime_of(extension_of(path@)),
{
    let ext = path_extension(path);
    match &ext {
        Some(e) => {
            let r = mime_for_extension(Some(e.as_str()));
            assert(r@ == mime_of(Some(e@)));
            r
        },
        None => {
            let r = mime_for_extension(None);
            assert(r@ == mime_of(None));
            r
        },
    }
}

/// `data_url`: `data:{mime};base64,{text}`.
pub fn data_url(path: &str, bytes: &[u8]) -> (res: String)
    requires
        bytes@.len() <= usize::MAX / 2,
    ensures
        exists|m: Seq<char>|
            res@ == "data:"@ + m + ";base64,"@ + base64_text(bytes@) && (m == "image/png"@ || m
                == "image/jpeg"@ || m == "image/webp"@),
        plain_path(path@) ==> res@ == "data:"@ + mime_of(extension_of(path@)) + ";base64,"@
            + base64_text(bytes@),
{
    let mime = mime_for_path(path);
    let text = encode_base64(bytes);
    let mut out = String::from_str("data:");
    out.append(mime);
    out.append(";base64,");
    out.append(text.as_str());
    proof {
        let e = choose|e: Option<Seq<char>>| mime@ == mime_of(e) && (e matches Some(t) ==> !t.contains('.'));
        assert(mime@ == "image/png"@ || mime@ == "image/jpeg"@ || mime@ == "image/webp"@);
    }
    out
}

/// The check before a pet's AI data folder is used: its id must be safe.
pub fn check_pet_id(pet_id: &str) -> (res: Result<(), String>)
    ensures
        !safe_id(pet_id@) ==> (res matches Err(e) && e@ == "宠物 id 无效"@),
        safe_id(pet_id@) ==> res is Ok,
{
    if !is_safe_id(pet_id) {
        return Err(String::from_str("宠物 id 无效"));
    }
    Ok(())
}

} // verus!
