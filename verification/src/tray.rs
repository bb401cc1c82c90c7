//! The tray menu: which entries it lists, and what a chosen entry asks for.
use vstd::prelude::*;

use crate::catalog::{display_name_of, pet_display_name, pet_views, InstalledPet, PetView};
use crate::config::{has_pet, AppConfig, InstanceView};
use crate::instances::{find_instance, index_of_id, lemma_index_of_id, pet_is_shown};
use crate::text::{char_count, str_eq, strip_prefix};

verus! {

/// One entry of a tray submenu: its id and its title.
pub struct MenuEntry {
    pub id: String,
    pub title: String,
}

pub struct EntryView {
    pub id: Seq<char>,
    pub title: Seq<char>,
}

impl View for MenuEntry {
    type V = EntryView;

    open spec fn view(&self) -> EntryView {
        EntryView { id: self.id@, title: self.title@ }
    }
}

pub open spec fn entry_views(s: Seq<MenuEntry>) -> Seq<EntryView> {
    s.map_values(|e: MenuEntry| e@)
}

/// A pet that can be added from the tray: enabled and not yet shown.
pub open spec fn addable(instances: Seq<InstanceView>) -> spec_fn(PetView) -> bool {
    |p: PetView| p.enabled && !has_pet(instances, p.id)
}

/// The "add" entry of a pet: `add-pet:{id}`, titled with its display name
/// (its id when that is empty).
pub open spec fn add_entry(p: PetView) -> EntryView {
    EntryView {
        id: "add-pet:"@ + p.id,
        title: "添加 "@ + if p.display_name.len() == 0 {
            p.id
        } else {
            p.display_name
        },
    }
}

/// The "add pet" submenu: an entry for each pet that can be added, in
/// catalog order.
pub fn add_entries(config: &AppConfig, pets: &Vec<InstalledPet>) -> (res: Vec<MenuEntry>)
    ensures
        entry_views(res@) == pet_views(pets@).filter(addable(config.instances_view())).map_values(
            |p: PetView| add_entry(p),
        ),
{
    let ghost s = pet_views(pets@);
    let ghost f = addable(config.instances_view());
    let mut out: Vec<MenuEntry> = Vec::new();
    let mut i: usize = 0;
    while i < pets.len()
        invariant
            s == pet_views(pets@),
            f == addable(config.instances_view()),
            0 <= i <= s.len(),
            entry_views(out@) == s.take(i as int).filter(f).map_values(|p: PetView| add_entry(p)),
        decreases s.len() - i,
    {
        reveal(Seq::filter);
        assert(s.take(i + 1).drop_last() =~= s.take(i as int));
        assert(s.take(i + 1).last() == s[i as int]);
        let pet = &pets[i];
        let ghost before = out@;
        if pet.enabled && !pet_is_shown(config, pet.id.as_str()) {
            let mut id = String::from_str("add-pet:");
            id.append(pet.id.as_str());
            let mut title = String::from_str("添加 ");
            if char_count(pet.display_name.as_str()) == 0 {
                title.append(pet.id.as_str());
            } else {
                title.append(pet.display_name.as_str());
            }
            out.push(MenuEntry { id, title });
            assert(entry_views(out@) =~= entry_views(before).push(add_entry(s[i as int])));
            assert(s.take(i + 1).filter(f) == s.take(i as int).filter(f).push(s[i as int]));
        } else {
            assert(s.take(i + 1).filter(f) == s.take(i as int).filter(f));
        }
        i = i + 1;
    }
    assert(s.take(s.len() as int) =~= s);
    out
}

/// The entry of an instance: `toggle-instance:{id}`, titled "hide" or
/// "show", the pet's name and the instance id.
pub open spec fn instance_entry(v: InstanceView, pets: Seq<PetView>) -> EntryView {
    EntryView {
        id: "toggle-instance:"@ + v.id,
        title: (if v.visible {
            "隐藏"@
        } else {
            "显示"@
        }) + " "@ + display_name_of(pets, v.pet_id) + " ("@ + v.id + ")"@,
    }
}

/// The "current pets" submenu: an entry for each configured instance.
pub fn instance_entries(config: &AppConfig, pets: &Vec<InstalledPet>) -> (res: Vec<MenuEntry>)
    ensures
        entry_views(res@) == config.instances_view().map_values(
            |v: InstanceView| instance_entry(v, pet_views(pets@)),
        ),
{
    let ghost s = config.instances_view();
    let ghost ps = pet_views(pets@);
    let mut out: Vec<MenuEntry> = Vec::new();
    let mut i: usize = 0;
    while i < config.instances.len()
        invariant
            s == config.instances_view(),
            ps == pet_views(pets@),
            0 <= i <= s.len(),
            entry_views(out@) == s.take(i as int).map_values(|v: InstanceView| instance_entry(v, ps)),
        decreases s.len() - i,
    {
        let instance = &config.instances[i];
        let mut id = String::from_str("toggle-instance:");
        id.append(instance.id.as_str());
        let mut title = if instance.visible {
            String::from_str("隐藏")
        } else {
            String::from_str("显示")
        };
        title.append(" ");
        let name = pet_display_name(pets, instance.pet_id.as_str());
        title.append(name.as_str());
        title.append(" (");
        title.append(instance.id.as_str());
        title.append(")");
        let ghost before = out@;
        out.push(MenuEntry { id, title });
        assert(entry_views(out@) =~= s.take(i + 1).map_values(|v: InstanceView| instance_entry(v, ps))) by {
            assert(entry_views(out@) =~= entry_views(before).push(instance_entry(s[i as int], ps)));
        }
        i = i + 1;
    }
    assert(s.take(s.len() as int) =~= s);
    out
}

/// What a tray entry asks for.
pub enum TrayAction {
    ShowHideAll,
    ManagePets,
    TogglePause,
    AddPet(String),
    ToggleInstance(String),
    Quit,
    Nothing,
}

/// The action of a tray entry id, as the tray's handler reads it.
pub open spec fn action_of(id: Seq<char>) -> (Seq<char>, Seq<char>) {
    if id == "show-hide-all"@ {
        ("show-hide-all"@, Seq::empty())
    } else if id == "manage-pets"@ || id == "pet-settings"@ {
        ("manage-pets"@, Seq::empty())
    } else if id == "toggle-pause"@ {
        ("toggle-pause"@, Seq::empty())
    } else if "add-pet:"@.is_prefix_of(id) {
        ("add-pet"@, id.skip("add-pet:"@.len() as int))
    } else if "toggle-instance:"@.is_prefix_of(id) {
        ("toggle-instance"@, id.skip("toggle-instance:"@.len() as int))
    } else if id == "quit"@ {
        ("quit"@, Seq::empty())
    } else {
        ("nothing"@, Seq::empty())
    }
}

/// The kind and argument of an action, as `action_of` names them.
pub open spec fn action_view(a: TrayAction) -> (Seq<char>, Seq<char>) {
    match a {
        TrayAction::ShowHideAll => ("show-hide-all"@, Seq::empty()),
        TrayAction::ManagePets => ("manage-pets"@, Seq::empty()),
        TrayAction::TogglePause => ("toggle-pause"@, Seq::empty()),
        TrayAction::AddPet(p) => ("add-pet"@, p@),
        TrayAction::ToggleInstance(i) => ("toggle-instance"@, i@),
        TrayAction::Quit => ("quit"@, Seq::empty()),
        TrayAction::Nothing => ("nothing"@, Seq::empty()),
    }
}

/// Reads a tray entry id.
pub fn tray_action(id: &str) -> (a: TrayAction)
    ensures
        action_view(a) == action_of(id@),
{
    if str_eq(id, "show-hide-all") {
        return TrayAction::ShowHideAll;
    }
    if str_eq(id, "manage-pets") || str_eq(id, "pet-settings") {
        return TrayAction::ManagePets;
    }
    if str_eq(id, "toggle-pause") {
        return TrayAction::TogglePause;
    }
    if let Some(pet) = strip_prefix(id, "add-pet:") {
        return TrayAction::AddPet(pet);
    }
    if let Some(instance) = strip_prefix(id, "toggle-instance:") {
        return TrayAction::ToggleInstance(instance);
    }
    if str_eq(id, "quit") {
        return TrayAction::Quit;
    }
    TrayAction::Nothing
}

/// Choosing an entry of the tray asks for what the entry was built for:
/// an "add" entry adds its pet, an instance entry toggles its instance.
pub proof fn tray_entries_read_back(pet: PetView, instance: InstanceView, pets: Seq<PetView>)
    ensures
        action_of(add_entry(pet).id) == ("add-pet"@, pet.id),
        action_of(instance_entry(instance, pets).id) == ("toggle-instance"@, instance.id),
{
    let a = add_entry(pet).id;
    let t = instance_entry(instance, pets).id;
    reveal_strlit("add-pet:");
    reveal_strlit("toggle-instance:");
    reveal_strlit("show-hide-all");
    reveal_strlit("manage-pets");
    reveal_strlit("pet-settings");
    reveal_strlit("toggle-pause");
    assert("add-pet:"@.is_prefix_of(a)) by {
        assert(a.subrange(0, 8) =~= "add-pet:"@);
    }
    assert(a.skip(8) =~= pet.id);
    assert(a != "show-hide-all"@) by {
        assert(a[0] != "show-hide-all"@[0]);
    }
    assert(a != "manage-pets"@) by {
        assert(a[1] != "manage-pets"@[1]);
    }
    assert(a != "pet-settings"@) by {
        assert(a[0] != "pet-settings"@[0]);
    }
    assert(a != "toggle-pause"@) by {
        assert(a[0] != "toggle-pause"@[0]);
    }
    assert("toggle-instance:"@.is_prefix_of(t)) by {
        assert(t.subrange(0, 16) =~= "toggle-instance:"@);
    }
    assert(t.skip(16) =~= instance.id);
    assert(!"add-pet:"@.is_prefix_of(t)) by {
        assert(t[0] != "add-pet:"@[0]);
    }
    assert(t != "show-hide-all"@) by {
        assert(t[0] != "show-hide-all"@[0]);
    }
    assert(t != "manage-pets"@) by {
        assert(t[0] != "manage-pets"@[0]);
    }
    assert(t != "pet-settings"@) by {
        assert(t[0] != "pet-settings"@[0]);
    }
    assert(t != "toggle-pause"@) by {
        assert(t[7] != "toggle-pause"@[7]);
    }
}

/// The visibility an instance entry asks for: the opposite of the
/// instance's, or hidden when no such instance is configured.
pub fn instance_toggle_target(config: &AppConfig, instance_id: &str) -> (visible: bool)
    ensures
        visible == match index_of_id(config.instances_view(), instance_id@) {
            Some(i) => !config.instances_view()[i].visible,
            None => false,
        },
{
    match find_instance(&config.instances, instance_id) {
        Some(i) => {
            proof {
                lemma_index_of_id(config.instances_view(), instance_id@);
            }
            !config.instances[i].visible
        },
        None => false,
    }
}

} // verus!
