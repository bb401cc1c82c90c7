//! Importing a pet package: the uploaded Base64 text, the `.zip` archive,
//! where `pet.json` and the spritesheet are found in it, and what a
//! package's manifest and spritesheet must satisfy.
use vstd::prelude::*;

use std::io::Read;

use crate::catalog::PetManifest;
use crate::encoding::{base64_decoding, decode_base64};
use crate::pets::{is_safe_id, is_safe_relative_path, parts_ok, rooted_or_drive, safe_id};
use crate::text::{
    ascii_fold, char_count, chars_of, decimal, fold_char, push_decimal, str_eq, strip_back,
    strip_end_char, trim, trim_str, CharSet,
};

verus! {

#[verifier::external_type_specification]
#[verifier::external_body]
#[verifier::reject_recursive_types(T)]
pub struct ExCursor<T>(std::io::Cursor<T>);

#[verifier::external_type_specification]
#[verifier::external_body]
#[verifier::reject_recursive_types(R)]
pub struct ExZipArchive<R>(zip::ZipArchive<R>);

/// The names of an archive's entries, in the archive's order (they are
/// distinct: the crate keys its entries by name).
pub uninterp spec fn archive_names(archive: zip::ZipArchive<std::io::Cursor<Vec<u8>>>) -> Seq<Seq<char>>;

/// What `ZipArchive::by_index(i)` gives for the archive's `i`-th entry: it
/// opens, or the text of the crate's error (an encrypted entry, a broken
/// local header, an unsupported compression).
pub uninterp spec fn entry_opening(archive: zip::ZipArchive<std::io::Cursor<Vec<u8>>>, i: int) -> Result<(), Seq<char>>;

/// What `ZipArchive::by_name(name)` and reading the entry to its end give:
/// the entry's bytes, or the text of the crate's error together with
/// whether the entry had opened.
pub uninterp spec fn member_reading(archive: zip::ZipArchive<std::io::Cursor<Vec<u8>>>, name: Seq<char>) -> Result<Seq<u8>, (bool, Seq<char>)>;

/// Two states of one archive that answer every question alike: the same
/// entries, each opening and reading as before. Opening or reading an
/// entry moves only the reader's position, and every call seeks anew.
pub open spec fn same_entries(a: zip::ZipArchive<std::io::Cursor<Vec<u8>>>, b: zip::ZipArchive<std::io::Cursor<Vec<u8>>>) -> bool {
    &&& archive_names(a) == archive_names(b)
    &&& forall|i: int| #![trigger entry_opening(a, i)] #![trigger entry_opening(b, i)]
        entry_opening(a, i) == entry_opening(b, i)
    &&& forall|n: Seq<char>| #![trigger member_reading(a, n)] #![trigger member_reading(b, n)]
        member_reading(a, n) == member_reading(b, n)
}

/// What `zip::ZipArchive::new` reads from a package's bytes: the names of
/// the archive's entries, in its order, or the text of the crate's error.
pub uninterp spec fn zip_reading(bytes: Seq<u8>) -> Result<Seq<Seq<char>>, Seq<char>>;

/// What the image crate decodes `bytes` to, by its width and height, or the
/// text of its error.
pub uninterp spec fn decoded_size(bytes: Seq<u8>) -> Result<(u32, u32), Seq<char>>;

/// The largest package accepted: 60 MB.
pub const MAX_PACKAGE_BYTES: usize = 62914560;

/// The largest spritesheet accepted: 50 MB.
pub const MAX_SPRITE_BYTES: usize = 52428800;

/// `name` ends with `.zip`, ignoring ASCII case.
pub open spec fn zip_named(name: Seq<char>) -> bool {
    name.len() >= 4 && forall|i: int|
        0 <= i < 4 ==> ascii_fold(#[trigger] name[name.len() - 4 + i] as u32) == ascii_fold(
            seq!['.', 'z', 'i', 'p'][i] as u32,
        )
}

fn is_zip_name(name: &str) -> (b: bool)
    ensures
        b == zip_named(name@),
{
    let v = chars_of(name);
    let n: usize = v.len();
    if n < 4 {
        return false;
    }
    let suffix: Vec<char> = vec!['.', 'z', 'i', 'p'];
    assert(suffix@ =~= seq!['.', 'z', 'i', 'p']);
    let mut i: usize = 0;
    while i < 4
        invariant
            v@ == name@,
            n == v@.len(),
            n >= 4,
            suffix@ == seq!['.', 'z', 'i', 'p'],
            0 <= i <= 4,
            forall|j: int|
                0 <= j < i ==> ascii_fold(#[trigger] name@[n - 4 + j] as u32) == ascii_fold(
                    seq!['.', 'z', 'i', 'p'][j] as u32,
                ),
        decreases 4 - i,
    {
        if fold_char(v[n - 4 + i]) != fold_char(suffix[i]) {
            return false;
        }
        i = i + 1;
    }
    true
}

/// The bytes of an uploaded package: the Base64 text decoded, refused when
/// it is not Base64, over 60 MB, or not named `.zip`.
pub fn package_bytes(file_name: &str, data_base64: &str) -> (res: Result<Vec<u8>, String>)
    ensures
        base64_decoding(data_base64@) matches Err(e) ==> (res matches Err(m) && m@
            == "宠物包不是有效的 Base64: "@ + e),
        base64_decoding(data_base64@) matches Ok(b) ==> if b.len() > MAX_PACKAGE_BYTES || !zip_named(
            file_name@,
        ) {
            res matches Err(m) && m@ == "请选择不超过 60 MB 的 .zip 宠物包"@
        } else {
            res matches Ok(v) && v@ == b
        },
{
    let bytes = match decode_base64(data_base64) {
        Ok(b) => b,
        Err(e) => {
            let mut m = String::from_str("宠物包不是有效的 Base64: ");
            m.append(e.as_str());
            return Err(m);
        },
    };
    if bytes.len() > MAX_PACKAGE_BYTES || !is_zip_name(file_name) {
        return Err(String::from_str("请选择不超过 60 MB 的 .zip 宠物包"));
    }
    Ok(bytes)
}

/// Calls `zip::ZipArchive::new` on the bytes, with the crate's error turned
/// into its message. The crate reads the central directory from the bytes
/// alone, so the outcome is named: the archive has the entries that
/// `zip_reading` gives, or the message is its error.
#[verifier::external_body]
fn open_archive(bytes: Vec<u8>) -> (res: Result<zip::ZipArchive<std::io::Cursor<Vec<u8>>>, String>)
    ensures
        match zip_reading(bytes@) {
            Ok(names) => res matches Ok(a) && archive_names(a) == names,
            Err(e) => res matches Err(m) && m@ == e,
        },
{
    zip::ZipArchive::new(std::io::Cursor::new(bytes)).map_err(|e| e.to_string())
}

/// Calls `ZipArchive::len`: the number of entries.
#[verifier::external_body]
fn archive_len(archive: &zip::ZipArchive<std::io::Cursor<Vec<u8>>>) -> (n: usize)
    ensures
        n == archive_names(*archive).len(),
{
    archive.len()
}

/// Calls `ZipArchive::by_index(i)` and keeps the entry's name or the text
/// of the crate's error. The crate reads the name from its index of
/// entries, which the call does not change; whether the entry opens
/// depends on the archive's bytes alone (`entry_opening`).
#[verifier::external_body]
fn entry_name(archive: &mut zip::ZipArchive<std::io::Cursor<Vec<u8>>>, i: usize) -> (res: Result<String, String>)
    requires
        i < archive_names(*old(archive)).len(),
    ensures
        same_entries(*final(archive), *old(archive)),
        match entry_opening(*old(archive), i as int) {
            Ok(_) => res matches Ok(name) && name@ == archive_names(*old(archive))[i as int],
            Err(e) => res matches Err(m) && m@ == e,
        },
{
    match archive.by_index(i) {
        Ok(entry) => Ok(entry.name().to_string()),
        Err(e) => Err(e.to_string()),
    }
}

/// Calls `ZipArchive::index_for_name`: whether an entry has that name.
#[verifier::external_body]
fn archive_has(archive: &zip::ZipArchive<std::io::Cursor<Vec<u8>>>, name: &str) -> (b: bool)
    ensures
        b == archive_names(*archive).contains(name@),
{
    archive.index_for_name(name).is_some()
}

/// Why an entry could not be read: it could not be opened (missing,
/// encrypted, ...) or its data could not be read.
pub enum MemberError {
    Open(String),
    Read(String),
}

/// Calls `ZipArchive::by_name` and reads the entry to its end. The outcome
/// is named (`member_reading`): the bytes, or the crate's error as an
/// opening or a reading failure; an entry whose name is missing fails to
/// open.
#[verifier::external_body]
fn read_member(archive: &mut zip::ZipArchive<std::io::Cursor<Vec<u8>>>, name: &str) -> (res: Result<Vec<u8>, MemberError>)
    ensures
        same_entries(*final(archive), *old(archive)),
        !archive_names(*old(archive)).contains(name@) ==> res matches Err(MemberError::Open(_)),
        match member_reading(*old(archive), name@) {
            Ok(b) => res matches Ok(v) && v@ == b,
            Err((false, e)) => res matches Err(MemberError::Open(m)) && m@ == e,
            Err((true, e)) => res matches Err(MemberError::Read(m)) && m@ == e,
        },
{
    match archive.by_name(name) {
        Ok(mut entry) => {
            let mut bytes = Vec::new();
            match entry.read_to_end(&mut bytes) {
                Ok(_) => Ok(bytes),
                Err(e) => Err(MemberError::Read(e.to_string())),
            }
        },
        Err(e) => Err(MemberError::Open(e.to_string())),
    }
}

/// An entry name (without trailing `/`) that names a manifest: `pet.json`
/// at the top or in a folder.
pub open spec fn names_manifest(name: Seq<char>) -> bool {
    name == "pet.json"@ || "/pet.json"@.is_suffix_of(name)
}

/// An entry name without its trailing `/`s.
pub open spec fn entry_stem(name: Seq<char>) -> Seq<char> {
    strip_back(name, CharSet::Only('/'))
}

/// The first entry whose stem names a manifest, if any.
pub open spec fn first_manifest(names: Seq<Seq<char>>, from: int) -> Option<int>
    decreases names.len() - from,
{
    if from < 0 || from >= names.len() {
        None
    } else if names_manifest(entry_stem(names[from])) {
        Some(from)
    } else {
        first_manifest(names, from + 1)
    }
}

/// What looking for the manifest from entry `from` on answers: the stem of
/// the first entry that names one, the crate's message for an entry before
/// it that does not open, or that there is none.
pub open spec fn manifest_search(archive: zip::ZipArchive<std::io::Cursor<Vec<u8>>>, from: int) -> Result<Seq<char>, Seq<char>>
    decreases archive_names(archive).len() - from,
{
    if from < 0 || from >= archive_names(archive).len() {
        Err("宠物包内缺少 pet.json"@)
    } else {
        match entry_opening(archive, from) {
            Err(e) => Err("无法读取宠物包: "@ + e),
            Ok(_) => if names_manifest(entry_stem(archive_names(archive)[from])) {
                Ok(entry_stem(archive_names(archive)[from]))
            } else {
                manifest_search(archive, from + 1)
            },
        }
    }
}

fn is_manifest_name(name: &str) -> (b: bool)
    ensures
        b == names_manifest(name@),
{
    if str_eq(name, "pet.json") {
        return true;
    }
    let v = chars_of(name);
    let p = chars_of("/pet.json");
    if p.len() > v.len() {
        return false;
    }
    let at: usize = v.len() - p.len();
    let hit = crate::text::matches_at(&v, &p, at);
    assert(hit == p@.is_suffix_of(v@)) by {
        assert(v@.subrange(at as int, v@.len() as int) =~= v@.subrange(v@.len() - p@.len(), v@.len() as int));
    }
    hit
}

/// Where a package's manifest is: the stem of the first entry that names
/// one. Fails with the crate's message when an entry before it cannot be
/// opened, and when there is none.
pub fn manifest_entry(archive: &mut zip::ZipArchive<std::io::Cursor<Vec<u8>>>) -> (res: Result<String, String>)
    ensures
        same_entries(*final(archive), *old(archive)),
        match manifest_search(*old(archive), 0) {
            Ok(m) => res matches Ok(r) && r@ == m,
            Err(e) => res matches Err(r) && r@ == e,
        },
        res matches Ok(m) ==> (first_manifest(archive_names(*old(archive)), 0) matches Some(i) && m@
            == entry_stem(archive_names(*old(archive))[i])),
        first_manifest(archive_names(*old(archive)), 0) is None ==> res is Err,
        res matches Err(e) ==> (e@ == "宠物包内缺少 pet.json"@ && first_manifest(archive_names(*old(archive)), 0) is None)
            || "无法读取宠物包: "@.is_prefix_of(e@),
{
    let ghost names = archive_names(*archive);
    let n = archive_len(archive);
    let mut i: usize = 0;
    while i < n
        invariant
            names == archive_names(*archive),
            names == archive_names(*old(archive)),
            same_entries(*archive, *old(archive)),
            n == names.len(),
            0 <= i <= n,
            first_manifest(names, 0) == first_manifest(names, i as int),
            manifest_search(*old(archive), 0) == manifest_search(*old(archive), i as int),
        decreases n - i,
    {
        let name = match entry_name(archive, i) {
            Ok(name) => name,
            Err(e) => {
                let mut m = String::from_str("无法读取宠物包: ");
                m.append(e.as_str());
                assert("无法读取宠物包: "@.is_prefix_of(m@)) by {
                    assert(m@.subrange(0, "无法读取宠物包: "@.len() as int) =~= "无法读取宠物包: "@);
                }
                return Err(m);
            },
        };
        let stem = strip_end_char(name.as_str(), '/');
        if is_manifest_name(stem.as_str()) {
            return Ok(stem);
        }
        i = i + 1;
    }
    Err(String::from_str("宠物包内缺少 pet.json"))
}

/// The folder a manifest is in, with its trailing `/`: what comes before
/// the last `/` of its name, or nothing.
pub open spec fn package_root(manifest_name: Seq<char>) -> Seq<char>
    decreases manifest_name.len(),
{
    if manifest_name.len() == 0 {
        Seq::empty()
    } else if manifest_name.last() == '/' {
        manifest_name
    } else {
        package_root(manifest_name.drop_last())
    }
}

/// `package_root` of the manifest's name.
pub fn root_of(manifest_name: &str) -> (res: String)
    ensures
        res@ == package_root(manifest_name@),
{
    let v = chars_of(manifest_name);
    let mut n: usize = v.len();
    assert(v@.take(n as int) =~= v@);
    while n > 0 && v[n - 1] != '/'
        invariant
            v@ == manifest_name@,
            0 <= n <= v@.len(),
            package_root(manifest_name@) == package_root(v@.take(n as int)),
        decreases n,
    {
        assert(v@.take(n as int).drop_last() =~= v@.take(n - 1));
        n = n - 1;
    }
    crate::text::substring(manifest_name, 0, n)
}

/// The archive name of a file of the package: the package's root followed
/// by the file's path inside it.
pub fn entry_in_root(root: &str, path: &str) -> (res: String)
    ensures
        res@ == root@ + path@,
{
    let mut m = String::from_str(root);
    m.append(path);
    m
}

/// `import_pet_package`'s last check: a pet whose id is already installed
/// (bundled or imported, as `exists` tells) is refused.
pub fn check_new_pet_id(pet_id: &str, exists: bool) -> (res: Result<(), String>)
    ensures
        exists ==> (res matches Err(e) && e@ == "宠物 id 已存在: "@ + pet_id@),
        !exists ==> res is Ok,
{
    if exists {
        return Err(prefixed("宠物 id 已存在: ", pet_id));
    }
    Ok(())
}

/// The sizes a spritesheet must have.
pub const SPRITESHEET_WIDTH: u32 = 1536;

pub const SPRITESHEET_HEIGHT: u32 = 2288;

/// Calls `image::load_from_memory` and keeps the image's width and height,
/// or the crate's error as text. The contract names the outcome: a function
/// of the bytes.
#[verifier::external_body]
fn image_size(bytes: &[u8]) -> (res: Result<(u32, u32), String>)
    ensures
        match res {
            Ok(size) => decoded_size(bytes@) == Ok::<(u32, u32), Seq<char>>(size),
            Err(e) => decoded_size(bytes@) == Err::<(u32, u32), Seq<char>>(e@),
        },
{
    match image::load_from_memory(bytes) {
        Ok(image) => Ok((image.width(), image.height())),
        Err(e) => Err(e.to_string()),
    }
}

/// The first complaint about an imported manifest and its spritesheet, in
/// the order they are checked, or none.
pub open spec fn manifest_problem(
    manifest_id: Seq<char>,
    display_name: Seq<char>,
    description: Seq<char>,
    version: u8,
    spritesheet_path: Seq<char>,
    pet_id: Seq<char>,
    sprite_path: Seq<char>,
    sprite_len: nat,
    safe_path: bool,
) -> Option<Seq<char>> {
    if !safe_id(pet_id) || manifest_id != pet_id {
        Some("pet.json 的 id 只能包含字母、数字、短横线或下划线，并且必须和目录一致"@)
    } else if version != 2 {
        Some("只支持 spriteVersionNumber: 2 的宠物资源"@)
    } else if trim(display_name).len() == 0 || trim(description).len() == 0 {
        Some("pet.json 缺少 displayName 或 description"@)
    } else if spritesheet_path != sprite_path || !safe_path {
        Some("spritesheetPath 不是安全的相对路径"@)
    } else if sprite_len == 0 || sprite_len > MAX_SPRITE_BYTES {
        Some("spritesheet 文件为空或超过 50 MB"@)
    } else {
        None
    }
}

/// The message for a spritesheet of the wrong size.
pub open spec fn size_message(w: u32, h: u32) -> Seq<char> {
    "spritesheet 尺寸为 "@ + decimal(w as nat) + "x"@ + decimal(h as nat) + "，应为 "@ + decimal(
        SPRITESHEET_WIDTH as nat,
    ) + "x"@ + decimal(SPRITESHEET_HEIGHT as nat)
}

/// What validation answers: the manifest's first problem, else what the
/// decoded size says.
pub open spec fn validation_outcome(manifest: PetManifest, pet_id: Seq<char>, sprite_path: Seq<char>, sprite: Seq<u8>, safe_path: bool) -> Result<(), Seq<char>> {
    match manifest_problem(
        manifest.id@,
        manifest.display_name@,
        manifest.description@,
        manifest.sprite_version_number,
        manifest.spritesheet_path@,
        pet_id,
        sprite_path,
        sprite.len(),
        safe_path,
    ) {
        Some(p) => Err(p),
        None => match decoded_size(sprite) {
            Err(d) => Err("无法解码 spritesheet: "@ + d),
            Ok((w, h)) => if w == SPRITESHEET_WIDTH && h == SPRITESHEET_HEIGHT {
                Ok(())
            } else {
                Err(size_message(w, h))
            },
        },
    }
}

/// An answer to "is this a safe relative path" that agrees with the path's
/// parts: exactly them where the platform plays no part (no leading
/// separator, no drive colon); elsewhere the platform decides what is
/// absolute, and a safe answer still needs proper parts.
pub open spec fn path_answer(path: Seq<char>, safe: bool) -> bool {
    &&& safe ==> parts_ok(path)
    &&& !rooted_or_drive(path) ==> (safe == parts_ok(path))
}

pub open spec fn outcome_of(res: Result<(), String>) -> Result<(), Seq<char>> {
    match res {
        Ok(()) => Ok(()),
        Err(e) => Err(e@),
    }
}

/// `validate_imported_manifest`: the manifest's fields, the spritesheet's
/// path and size, and then its decoded size.
pub fn validate_imported_manifest(manifest: &PetManifest, pet_id: &str, sprite_path: &str, sprite: &[u8]) -> (res: Result<(), String>)
    ensures
        exists|safe_path: bool|
            #[trigger] path_answer(sprite_path@, safe_path) && outcome_of(res) == validation_outcome(
                *manifest,
                pet_id@,
                sprite_path@,
                sprite@,
                safe_path,
            ),
{
    assert(path_answer(sprite_path@, parts_ok(sprite_path@) && !rooted_or_drive(sprite_path@)));
    if !is_safe_id(pet_id) || !str_eq(manifest.id.as_str(), pet_id) {
        return Err(String::from_str("pet.json 的 id 只能包含字母、数字、短横线或下划线，并且必须和目录一致"));
    }
    if manifest.sprite_version_number != 2 {
        return Err(String::from_str("只支持 spriteVersionNumber: 2 的宠物资源"));
    }
    let name = trim_str(manifest.display_name.as_str());
    let about = trim_str(manifest.description.as_str());
    if char_count(name.as_str()) == 0 || char_count(about.as_str()) == 0 {
        return Err(String::from_str("pet.json 缺少 displayName 或 description"));
    }
    if !str_eq(manifest.spritesheet_path.as_str(), sprite_path) {
        return Err(String::from_str("spritesheetPath 不是安全的相对路径"));
    }
    let safe_path = is_safe_relative_path(sprite_path);
    assert(path_answer(sprite_path@, safe_path));
    if !safe_path {
        return Err(String::from_str("spritesheetPath 不是安全的相对路径"));
    }
    if sprite.len() == 0 || sprite.len() > MAX_SPRITE_BYTES {
        return Err(String::from_str("spritesheet 文件为空或超过 50 MB"));
    }
    let (w, h) = match image_size(sprite) {
        Ok(size) => size,
        Err(e) => {
            let mut m = String::from_str("无法解码 spritesheet: ");
            m.append(e.as_str());
            return Err(m);
        },
    };
    if w != SPRITESHEET_WIDTH || h != SPRITESHEET_HEIGHT {
        let mut m = String::from_str("spritesheet 尺寸为 ");
        push_decimal(&mut m, w as u64);
        m.append("x");
        push_decimal(&mut m, h as u64);
        m.append("，应为 ");
        push_decimal(&mut m, SPRITESHEET_WIDTH as u64);
        m.append("x");
        push_decimal(&mut m, SPRITESHEET_HEIGHT as u64);
        return Err(m);
    }
    Ok(())
}

/// Opens a package's archive; a package that is not a readable zip is
/// refused with the crate's message.
pub fn open_package(bytes: Vec<u8>) -> (res: Result<zip::ZipArchive<std::io::Cursor<Vec<u8>>>, String>)
    ensures
        match zip_reading(bytes@) {
            Ok(names) => res matches Ok(a) && archive_names(a) == names,
            Err(e) => res matches Err(m) && m@ == "无法打开宠物包: "@ + e,
        },
        res matches Err(m) ==> "无法打开宠物包: "@.is_prefix_of(m@),
{
    package_opening(open_archive(bytes))
}

/// What opening a package answers, given what the zip crate answered: the
/// archive as it is, or the crate's message after "无法打开宠物包: ".
pub fn package_opening(opened: Result<zip::ZipArchive<std::io::Cursor<Vec<u8>>>, String>) -> (res: Result<zip::ZipArchive<std::io::Cursor<Vec<u8>>>, String>)
    ensures
        opened matches Ok(a) ==> res matches Ok(b) && b == a,
        opened matches Err(e) ==> res matches Err(m) && m@ == "无法打开宠物包: "@ + e@,
        res matches Err(m) ==> "无法打开宠物包: "@.is_prefix_of(m@),
{
    match opened {
        Ok(archive) => Ok(archive),
        Err(e) => Err(prefixed("无法打开宠物包: ", e.as_str())),
    }
}

/// `prefix` followed by `rest`.
fn prefixed(prefix: &str, rest: &str) -> (res: String)
    ensures
        res@ == prefix@ + rest@,
        prefix@.is_prefix_of(res@),
{
    let mut m = String::from_str(prefix);
    m.append(rest);
    assert(m@.subrange(0, prefix@.len() as int) =~= prefix@);
    m
}

/// The number of entries of an archive.
pub fn entry_count(archive: &zip::ZipArchive<std::io::Cursor<Vec<u8>>>) -> (n: usize)
    ensures
        n == archive_names(*archive).len(),
{
    archive_len(archive)
}

/// Whether an archive has an entry of that name.
pub fn has_entry(archive: &zip::ZipArchive<std::io::Cursor<Vec<u8>>>, name: &str) -> (b: bool)
    ensures
        b == archive_names(*archive).contains(name@),
{
    archive_has(archive, name)
}

/// Reads the entry `name`, which the messages call `what`. When `missing`
/// is set, an entry that cannot be opened is reported as missing from the
/// package; otherwise every failure is reported as unreadable.
pub fn read_entry(archive: &mut zip::ZipArchive<std::io::Cursor<Vec<u8>>>, name: &str, what: &str, missing: bool) -> (res: Result<Vec<u8>, String>)
    ensures
        same_entries(*final(archive), *old(archive)),
        match member_reading(*old(archive), name@) {
            Ok(b) => res matches Ok(v) && v@ == b,
            Err((false, e)) => res matches Err(m) && m@ == (if missing {
                "宠物包内缺少 "@
            } else {
                "无法读取 "@
            }) + what@ + ": "@ + e,
            Err((true, e)) => res matches Err(m) && m@ == "无法读取 "@ + what@ + ": "@ + e,
        },
        !archive_names(*old(archive)).contains(name@) && missing ==> (res matches Err(m)
            && ("宠物包内缺少 "@ + what@ + ": "@).is_prefix_of(m@)),
        !archive_names(*old(archive)).contains(name@) && !missing ==> (res matches Err(m)
            && ("无法读取 "@ + what@ + ": "@).is_prefix_of(m@)),
        res matches Err(m) ==> ("宠物包内缺少 "@ + what@ + ": "@).is_prefix_of(m@) || ("无法读取 "@
            + what@ + ": "@).is_prefix_of(m@),
{
    match read_member(archive, name) {
        Ok(bytes) => Ok(bytes),
        Err(MemberError::Open(e)) => {
            let head = if missing {
                prefixed("宠物包内缺少 ", what)
            } else {
                prefixed("无法读取 ", what)
            };
            let head = prefixed(head.as_str(), ": ");
            Err(prefixed(head.as_str(), e.as_str()))
        },
        Err(MemberError::Read(e)) => {
            let head = prefixed("无法读取 ", what);
            let head = prefixed(head.as_str(), ": ");
            Err(prefixed(head.as_str(), e.as_str()))
        },
    }
}

} // verus!
