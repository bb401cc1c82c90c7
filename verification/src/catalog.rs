//! The pets that can be shown: those bundled with the app and those
//! imported, as the pet manager lists them.
use vstd::prelude::*;

use crate::config::{settings_for_pet, settings_of, AppConfig, PetSettings};
use crate::instances::is_disabled;
use crate::order::{lemma_text_lt_asymmetric, lemma_text_lt_total, lemma_text_lt_transitive, text_less, text_lt};
use crate::pets::{is_safe_id, is_safe_relative_path, parts_ok, rooted_or_drive, safe_id};
use crate::text::{char_count, chars_of, str_eq};

verus! {

broadcast use vstd::seq_lib::group_to_multiset_ensures;

/// A pet shipped with the app, and the folder of its resources.
pub struct BundledPet {
    pub id: String,
    pub path: String,
}

/// The first bundled pet with id `id`, if any.
pub open spec fn bundled_index(s: Seq<BundledPet>, id: Seq<char>) -> Option<int> {
    if exists|i: int| 0 <= i < s.len() && (#[trigger] s[i]).id@ == id {
        Some(choose|i: int| 0 <= i < s.len() && (#[trigger] s[i]).id@ == id && forall|j: int| 0 <= j < i ==> (#[trigger] s[j]).id@ != id)
    } else {
        None
    }
}

/// `pet_is_bundled`: the first pet of the catalog with that id.
pub fn pet_is_bundled(catalog: &Vec<BundledPet>, pet_id: &str) -> (res: Option<BundledPet>)
    ensures
        match res {
            Some(p) => exists|i: int|
                0 <= i < catalog@.len() && catalog@[i].id@ == pet_id@ && (forall|j: int| 0 <= j < i ==> (#[trigger] catalog@[j]).id@ != pet_id@)
                    && p.id@ == catalog@[i].id@ && p.path@ == catalog@[i].path@,
            None => forall|i: int| 0 <= i < catalog@.len() ==> (#[trigger] catalog@[i]).id@ != pet_id@,
        },
{
    let mut i: usize = 0;
    while i < catalog.len()
        invariant
            0 <= i <= catalog@.len(),
            forall|j: int| 0 <= j < i ==> (#[trigger] catalog@[j]).id@ != pet_id@,
        decreases catalog@.len() - i,
    {
        if str_eq(catalog[i].id.as_str(), pet_id) {
            return Some(BundledPet { id: catalog[i].id.clone(), path: catalog[i].path.clone() });
        }
        i = i + 1;
    }
    None
}

/// What `pet.json` says of an imported pet.
pub struct PetManifest {
    pub id: String,
    pub display_name: String,
    pub description: String,
    pub sprite_version_number: u8,
    pub spritesheet_path: String,
}

/// Whether an imported pet's folder `pet_id` holds a usable manifest: the
/// folder name is safe, the manifest names it, uses sprite version 2, and
/// its spritesheet path is a safe relative path.
pub fn manifest_usable(manifest: &PetManifest, pet_id: &str) -> (b: bool)
    ensures
        b ==> safe_id(pet_id@) && manifest.id@ == pet_id@ && manifest.sprite_version_number == 2
            && parts_ok(manifest.spritesheet_path@),
        !safe_id(pet_id@) || manifest.id@ != pet_id@ || manifest.sprite_version_number != 2
            || !parts_ok(manifest.spritesheet_path@) ==> !b,
        safe_id(pet_id@) && manifest.id@ == pet_id@ && manifest.sprite_version_number == 2
            && parts_ok(manifest.spritesheet_path@) && !rooted_or_drive(
            manifest.spritesheet_path@,
        ) ==> b,
{
    is_safe_id(pet_id) && str_eq(manifest.id.as_str(), pet_id) && manifest.sprite_version_number == 2
        && is_safe_relative_path(manifest.spritesheet_path.as_str())
}

/// A pet as the manager lists it.
pub struct InstalledPet {
    pub id: String,
    pub display_name: String,
    pub description: String,
    pub sprite_version_number: u8,
    pub spritesheet_path: String,
    pub source: String,
    pub enabled: bool,
    pub preview_data_url: Option<String>,
    pub path: Option<String>,
    pub settings: PetSettings,
}

/// The mathematical form of an [`InstalledPet`].
pub struct PetView {
    pub id: Seq<char>,
    pub display_name: Seq<char>,
    pub description: Seq<char>,
    pub sprite_version_number: u8,
    pub spritesheet_path: Seq<char>,
    pub source: Seq<char>,
    pub enabled: bool,
    pub preview_data_url: Option<Seq<char>>,
    pub path: Option<Seq<char>>,
    pub settings: PetSettings,
}

pub open spec fn opt_text(o: Option<String>) -> Option<Seq<char>> {
    match o {
        Some(s) => Some(s@),
        None => None,
    }
}

impl View for InstalledPet {
    type V = PetView;

    open spec fn view(&self) -> PetView {
        PetView {
            id: self.id@,
            display_name: self.display_name@,
            description: self.description@,
            sprite_version_number: self.sprite_version_number,
            spritesheet_path: self.spritesheet_path@,
            source: self.source@,
            enabled: self.enabled,
            preview_data_url: opt_text(self.preview_data_url),
            path: opt_text(self.path),
            settings: self.settings,
        }
    }
}

pub open spec fn pet_views(s: Seq<InstalledPet>) -> Seq<PetView> {
    s.map_values(|p: InstalledPet| p@)
}

/// The listing of a bundled pet: its id and folder, sprite version 2, and
/// whether it is enabled and its settings by the configuration.
pub open spec fn bundled_view(config: AppConfig, pet: BundledPet) -> PetView {
    PetView {
        id: pet.id@,
        display_name: Seq::empty(),
        description: Seq::empty(),
        sprite_version_number: 2,
        spritesheet_path: "spritesheet.webp"@,
        source: "bundled"@,
        enabled: !config.disabled_view().contains(pet.id@),
        preview_data_url: None,
        path: Some(pet.path@),
        settings: settings_of(config.settings_view(), pet.id@),
    }
}

/// The listing of a bundled pet.
pub fn bundled_listing(config: &AppConfig, pet: &BundledPet) -> (res: InstalledPet)
    requires
        config.wf(),
    ensures
        res@ == bundled_view(*config, *pet),
{
    InstalledPet {
        id: pet.id.clone(),
        display_name: String::new(),
        description: String::new(),
        sprite_version_number: 2,
        spritesheet_path: String::from_str("spritesheet.webp"),
        source: String::from_str("bundled"),
        enabled: !is_disabled(config, pet.id.as_str()),
        preview_data_url: None,
        path: Some(pet.path.clone()),
        settings: settings_for_pet(config, pet.id.as_str()),
    }
}

/// The listing of an imported pet in folder `pet_id`, with the preview of
/// its spritesheet.
pub fn imported_listing(config: &AppConfig, pet_id: &str, manifest: &PetManifest, preview: String) -> (res: InstalledPet)
    requires
        config.wf(),
    ensures
        res@ == (PetView {
            id: manifest.id@,
            display_name: manifest.display_name@,
            description: manifest.description@,
            sprite_version_number: manifest.sprite_version_number,
            spritesheet_path: manifest.spritesheet_path@,
            source: "imported"@,
            enabled: !config.disabled_view().contains(pet_id@),
            preview_data_url: Some(preview@),
            path: None,
            settings: settings_of(config.settings_view(), pet_id@),
        }),
{
    InstalledPet {
        id: manifest.id.clone(),
        display_name: manifest.display_name.clone(),
        description: manifest.description.clone(),
        sprite_version_number: manifest.sprite_version_number,
        spritesheet_path: manifest.spritesheet_path.clone(),
        source: String::from_str("imported"),
        enabled: !is_disabled(config, pet_id),
        preview_data_url: Some(preview),
        path: None,
        settings: settings_for_pet(config, pet_id),
    }
}

/// `s` with `x` put after every pet whose id does not come after `x`'s,
/// counted from the end: one step of a stable insertion sort.
pub open spec fn insert_by_id(s: Seq<PetView>, x: PetView) -> Seq<PetView>
    decreases s.len(),
{
    if s.len() == 0 {
        seq![x]
    } else if text_lt(x.id, s.last().id) {
        insert_by_id(s.drop_last(), x).push(s.last())
    } else {
        s.push(x)
    }
}

/// The pets sorted by id, stably: `sort_by(|a, b| a.id.cmp(&b.id))`.
pub open spec fn sorted_by_id(s: Seq<PetView>) -> Seq<PetView>
    decreases s.len(),
{
    if s.len() == 0 {
        s
    } else {
        insert_by_id(sorted_by_id(s.drop_last()), s.last())
    }
}

/// Where `insert_by_id` puts `x` among the first `n` pets of `s`.
pub open spec fn insert_position(s: Seq<PetView>, x: PetView, n: int) -> int
    decreases n,
{
    if n <= 0 {
        0
    } else if text_lt(x.id, s[n - 1].id) {
        insert_position(s, x, n - 1)
    } else {
        n
    }
}

proof fn lemma_insert_position(s: Seq<PetView>, x: PetView, n: int)
    requires
        0 <= n <= s.len(),
    ensures
        0 <= insert_position(s, x, n) <= n,
        insert_by_id(s.take(n), x) == s.take(n).insert(insert_position(s, x, n), x),
    decreases n,
{
    if n > 0 {
        assert(s.take(n).drop_last() =~= s.take(n - 1));
        assert(s.take(n).last() == s[n - 1]);
        lemma_insert_position(s, x, n - 1);
        let p = insert_position(s, x, n - 1);
        if text_lt(x.id, s[n - 1].id) {
            assert(s.take(n - 1).insert(p, x).push(s[n - 1]) =~= s.take(n).insert(p, x));
        } else {
            assert(s.take(n).push(x) =~= s.take(n).insert(n, x));
        }
    } else {
        assert(s.take(0).insert(0, x) =~= seq![x]);
    }
}

fn pet_position(out: &Vec<InstalledPet>, x: &InstalledPet) -> (p: usize)
    ensures
        p as int == insert_position(pet_views(out@), x@, out@.len() as int),
        p <= out@.len(),
{
    let ghost s = pet_views(out@);
    let key = chars_of(x.id.as_str());
    let mut p: usize = out.len();
    while p > 0
        invariant
            s == pet_views(out@),
            key@ == x.id@,
            0 <= p <= out@.len(),
            insert_position(s, x@, out@.len() as int) == insert_position(s, x@, p as int),
        decreases p,
    {
        let other = chars_of(out[p - 1].id.as_str());
        if !text_less(&key, &other) {
            return p;
        }
        p = p - 1;
    }
    p
}

/// `installed_pets`' order: pets sorted by id, stably.
pub fn sort_by_id(pets: Vec<InstalledPet>) -> (res: Vec<InstalledPet>)
    ensures
        pet_views(res@) == sorted_by_id(pet_views(pets@)),
{
    let ghost s = pet_views(pets@);
    let mut rest = pets;
    let mut out: Vec<InstalledPet> = Vec::new();
    let ghost mut i: int = 0;
    while rest.len() > 0
        invariant
            0 <= i <= s.len(),
            pet_views(rest@) == s.skip(i),
            pet_views(out@) == sorted_by_id(s.take(i)),
        decreases rest@.len(),
    {
        let ghost before = pet_views(out@);
        let ghost r0 = rest@;
        let x = rest.remove(0);
        assert(r0.len() > 0);
        assert(pet_views(r0).len() == r0.len());
        assert(s.skip(i).len() == s.len() - i);
        assert(i < s.len());
        assert(x == r0[0]);
        assert(pet_views(r0)[0] == r0[0]@);
        assert(s.skip(i)[0] == s[i]);
        assert(x@ == s[i]);
        assert(pet_views(rest@) =~= s.skip(i + 1)) by {
            assert(rest@ =~= r0.subrange(1, r0.len() as int));
            assert forall|k: int| 0 <= k < rest@.len() implies pet_views(rest@)[k] == s.skip(i + 1)[k] by {
                assert(rest@[k] == r0[k + 1]);
                assert(pet_views(r0)[k + 1] == s.skip(i)[k + 1]);
                assert(s.skip(i)[k + 1] == s[i + k + 1]);
                assert(s.skip(i + 1)[k] == s[i + 1 + k]);
                assert(pet_views(rest@)[k] == rest@[k]@);
            }
        }
        let p = pet_position(&out, &x);
        proof {
            lemma_insert_position(before, x@, before.len() as int);
            assert(before.take(before.len() as int) =~= before);
            assert(s.take(i + 1).drop_last() =~= s.take(i));
            assert(s.take(i + 1).last() == s[i]);
        }
        out.insert(p, x);
        assert(pet_views(out@) =~= before.insert(p as int, s[i]));
        proof {
            i = i + 1;
        }
    }
    assert(s.take(s.len() as int) =~= s);
    out
}

/// No pet's id comes before the id of a pet listed ahead of it.
pub open spec fn ids_sorted(s: Seq<PetView>) -> bool {
    forall|i: int, j: int| 0 <= i < j < s.len() ==> !text_lt((#[trigger] s[j]).id, (#[trigger] s[i]).id)
}

proof fn lemma_insert_by_id(s: Seq<PetView>, x: PetView)
    requires
        ids_sorted(s),
    ensures
        ids_sorted(insert_by_id(s, x)),
        insert_by_id(s, x).to_multiset() == s.to_multiset().insert(x),
    decreases s.len(),
{
    if s.len() == 0 {
        assert(seq![x] =~= Seq::<PetView>::empty().push(x));
        return;
    }
    let d = s.drop_last();
    let last = s.last();
    assert(s =~= d.push(last));
    assert(ids_sorted(d)) by {
        assert forall|i: int, j: int| 0 <= i < j < d.len() implies !text_lt((#[trigger] d[j]).id, (#[trigger] d[i]).id) by {
            assert(d[i] == s[i] && d[j] == s[j]);
        }
    }
    if text_lt(x.id, last.id) {
        lemma_insert_by_id(d, x);
        let r = insert_by_id(d, x);
        assert forall|k: int| 0 <= k < r.len() implies !text_lt(last.id, (#[trigger] r[k]).id) by {
            assert(r.to_multiset().count(r[k]) > 0);
            if r[k] == x {
                lemma_text_lt_asymmetric(x.id, last.id);
            } else {
                assert(d.to_multiset().count(r[k]) > 0);
                assert(d.contains(r[k]));
                let j = choose|j: int| 0 <= j < d.len() && d[j] == r[k];
                assert(s[j] == d[j]);
                assert(!text_lt(s[s.len() - 1].id, s[j].id));
            }
        }
        let t = r.push(last);
        assert forall|i: int, j: int| 0 <= i < j < t.len() implies !text_lt((#[trigger] t[j]).id, (#[trigger] t[i]).id) by {
            if j == t.len() - 1 {
                assert(t[i] == r[i]);
            } else {
                assert(t[i] == r[i] && t[j] == r[j]);
            }
        }
    } else {
        let t = s.push(x);
        assert forall|i: int, j: int| 0 <= i < j < t.len() implies !text_lt((#[trigger] t[j]).id, (#[trigger] t[i]).id) by {
            if j == t.len() - 1 {
                assert(t[i] == s[i]);
                if text_lt(x.id, s[i].id) {
                    lemma_text_lt_total(s[i].id, last.id);
                    if i < s.len() - 1 {
                        assert(!text_lt(s[s.len() - 1].id, s[i].id));
                    }
                    if text_lt(s[i].id, last.id) {
                        lemma_text_lt_transitive(x.id, s[i].id, last.id);
                    }
                }
            } else {
                assert(t[i] == s[i] && t[j] == s[j]);
            }
        }
    }
}

/// The catalog's order: sorting puts the pets in id order and keeps every
/// pet, as many times as it was there.
pub proof fn sorting_orders_and_keeps_pets(s: Seq<PetView>)
    ensures
        ids_sorted(sorted_by_id(s)),
        sorted_by_id(s).to_multiset() == s.to_multiset(),
    decreases s.len(),
{
    if s.len() > 0 {
        sorting_orders_and_keeps_pets(s.drop_last());
        lemma_insert_by_id(sorted_by_id(s.drop_last()), s.last());
        assert(s =~= s.drop_last().push(s.last()));
    }
}

/// `installed_pets`: the bundled pets, then the imported listings, sorted
/// by id.
pub fn installed_pets(config: &AppConfig, catalog: &Vec<BundledPet>, imported: Vec<InstalledPet>) -> (res: Vec<InstalledPet>)
    requires
        config.wf(),
    ensures
        pet_views(res@) == sorted_by_id(
            catalog@.map_values(|b: BundledPet| bundled_view(*config, b)) + pet_views(imported@),
        ),
{
    let ghost bs = catalog@.map_values(|b: BundledPet| bundled_view(*config, b));
    let mut all: Vec<InstalledPet> = Vec::new();
    let mut i: usize = 0;
    while i < catalog.len()
        invariant
            config.wf(),
            bs == catalog@.map_values(|b: BundledPet| bundled_view(*config, b)),
            0 <= i <= catalog@.len(),
            pet_views(all@) == bs.take(i as int),
        decreases catalog@.len() - i,
    {
        let ghost before = all@;
        all.push(bundled_listing(config, &catalog[i]));
        assert(pet_views(all@) =~= bs.take(i + 1)) by {
            assert(pet_views(all@) =~= pet_views(before).push(bs[i as int]));
        }
        i = i + 1;
    }
    assert(bs.take(bs.len() as int) =~= bs);
    let mut extra = imported;
    all.append(&mut extra);
    assert(pet_views(all@) =~= bs + pet_views(imported@));
    sort_by_id(all)
}

/// The name a pet is shown by: its display name, its id when that is
/// empty, or `pet_id` itself when no listing has that id.
pub open spec fn display_name_of(s: Seq<PetView>, pet_id: Seq<char>) -> Seq<char>
    decreases s.len(),
{
    if s.len() == 0 {
        pet_id
    } else if s[0].id == pet_id {
        if s[0].display_name.len() == 0 {
            s[0].id
        } else {
            s[0].display_name
        }
    } else {
        display_name_of(s.drop_first(), pet_id)
    }
}

/// `pet_display_name`, over the catalog's listings.
pub fn pet_display_name(pets: &Vec<InstalledPet>, pet_id: &str) -> (res: String)
    ensures
        res@ == display_name_of(pet_views(pets@), pet_id@),
{
    let ghost s = pet_views(pets@);
    let mut i: usize = 0;
    assert(s.skip(0) =~= s);
    while i < pets.len()
        invariant
            s == pet_views(pets@),
            0 <= i <= s.len(),
            display_name_of(s, pet_id@) == display_name_of(s.skip(i as int), pet_id@),
        decreases s.len() - i,
    {
        assert(s.skip(i as int)[0] == s[i as int]);
        if str_eq(pets[i].id.as_str(), pet_id) {
            if char_count(pets[i].display_name.as_str()) == 0 {
                return pets[i].id.clone();
            }
            return pets[i].display_name.clone();
        }
        assert(s.skip(i as int).drop_first() =~= s.skip(i + 1));
        i = i + 1;
    }
    String::from_str(pet_id)
}

} // verus!
