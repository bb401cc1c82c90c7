//! What the pet manager and the tray do to the configuration: adding,
//! removing, showing and hiding instances, pausing and disabling pets.
use vstd::prelude::*;

use crate::config::{
    default_settings, has_pet, instance_views, main_instance, normalize_config,
    normalized_instances, normalized_settings, safe_texts, settings_for_pet, settings_of, AppConfig,
    consistent_instances_are_normalized, has_main, instances_consistent, instance_safe,
    InstanceView, PetInstanceConfig, PetPosition, PetSettings,
};
use crate::pets::{id_of_label, instance_id_from_label, instance_label, is_pet_window_label, label_of, instance_label_prefix};
use crate::search::contains_token;
use crate::stream::string_views;
use crate::text::{decimal, push_decimal, str_eq};

verus! {

/// `config` is what normalizing the parts `instances`, `disabled` and `m`
/// gives, with `legacy` settings and the instance counter `next`.
pub open spec fn normalized_from(
    config: AppConfig,
    instances: Seq<InstanceView>,
    disabled: Seq<Seq<char>>,
    m: Map<Seq<char>, PetSettings>,
    legacy: PetSettings,
    next: u64,
) -> bool {
    &&& config.wf()
    &&& config.settings == legacy
    &&& config.next_instance_id == next
    &&& config.instances_view() == normalized_instances(instances)
    &&& config.disabled_view() == safe_texts(disabled)
    &&& config.settings_view() == normalized_settings(m, legacy, config.instances_view())
}

/// The first instance with id `id`, if any.
pub open spec fn index_of_id(s: Seq<InstanceView>, id: Seq<char>) -> Option<int>
    decreases s.len(),
{
    if s.len() == 0 {
        None
    } else {
        match index_of_id(s.drop_last(), id) {
            Some(i) => Some(i),
            None => if s.last().id == id {
                Some(s.len() - 1)
            } else {
                None
            },
        }
    }
}

pub proof fn lemma_index_of_id(s: Seq<InstanceView>, id: Seq<char>)
    ensures
        match index_of_id(s, id) {
            Some(i) => 0 <= i < s.len() && s[i].id == id && forall|j: int|
                0 <= j < i ==> (#[trigger] s[j]).id != id,
            None => forall|j: int| 0 <= j < s.len() ==> (#[trigger] s[j]).id != id,
        },
    decreases s.len(),
{
    if s.len() > 0 {
        lemma_index_of_id(s.drop_last(), id);
        let d = s.drop_last();
        match index_of_id(d, id) {
            Some(i) => {
                assert(s[i] == d[i]);
                assert forall|j: int| 0 <= j < i implies (#[trigger] s[j]).id != id by {
                    assert(s[j] == d[j]);
                }
            },
            None => {
                assert forall|j: int| 0 <= j < s.len() - 1 implies (#[trigger] s[j]).id != id by {
                    assert(s[j] == d[j]);
                }
            },
        }
    }
}

/// The position of the instance `id`.
pub fn find_instance(instances: &Vec<PetInstanceConfig>, id: &str) -> (res: Option<usize>)
    ensures
        match res {
            Some(i) => index_of_id(instance_views(instances@), id@) == Some(i as int),
            None => index_of_id(instance_views(instances@), id@) is None,
        },
{
    let ghost s = instance_views(instances@);
    proof {
        lemma_index_of_id(s, id@);
    }
    let mut i: usize = 0;
    while i < instances.len()
        invariant
            s == instance_views(instances@),
            0 <= i <= instances@.len(),
            forall|j: int| 0 <= j < i ==> (#[trigger] s[j]).id != id@,
            match index_of_id(s, id@) {
                Some(k) => 0 <= k < s.len() && s[k].id == id@ && forall|j: int|
                    0 <= j < k ==> (#[trigger] s[j]).id != id@,
                None => forall|j: int| 0 <= j < s.len() ==> (#[trigger] s[j]).id != id@,
            },
        decreases instances@.len() - i,
    {
        if str_eq(instances[i].id.as_str(), id) {
            assert(s[i as int].id == id@);
            return Some(i);
        }
        i = i + 1;
    }
    None
}

/// Whether the pet `pet_id` is disabled.
pub fn is_disabled(config: &AppConfig, pet_id: &str) -> (b: bool)
    ensures
        b == config.disabled_view().contains(pet_id@),
{
    let ghost d = config.disabled_view();
    let mut i: usize = 0;
    while i < config.disabled_pet_ids.len()
        invariant
            d == config.disabled_view(),
            0 <= i <= d.len(),
            forall|j: int| 0 <= j < i ==> d[j] != pet_id@,
        decreases d.len() - i,
    {
        if str_eq(config.disabled_pet_ids[i].as_str(), pet_id) {
            assert(d[i as int] == pet_id@);
            return true;
        }
        i = i + 1;
    }
    false
}

/// Whether some instance shows the pet `pet_id`.
pub fn pet_is_shown(config: &AppConfig, pet_id: &str) -> (b: bool)
    ensures
        b == has_pet(config.instances_view(), pet_id@),
{
    let ghost s = config.instances_view();
    let mut i: usize = 0;
    while i < config.instances.len()
        invariant
            s == config.instances_view(),
            0 <= i <= s.len(),
            forall|j: int| 0 <= j < i ==> (#[trigger] s[j]).pet_id != pet_id@,
        decreases s.len() - i,
    {
        if str_eq(config.instances[i].pet_id.as_str(), pet_id) {
            assert(s[i as int].pet_id == pet_id@);
            return true;
        }
        i = i + 1;
    }
    false
}

/// An instance as the pet manager sees it.
pub struct PetInstanceInfo {
    pub id: String,
    pub pet_id: String,
    pub visible: bool,
    pub is_main: bool,
}

/// The mathematical form of a [`PetInstanceInfo`].
pub struct InfoView {
    pub id: Seq<char>,
    pub pet_id: Seq<char>,
    pub visible: bool,
    pub is_main: bool,
}

impl View for PetInstanceInfo {
    type V = InfoView;

    open spec fn view(&self) -> InfoView {
        InfoView { id: self.id@, pet_id: self.pet_id@, visible: self.visible, is_main: self.is_main }
    }
}

pub open spec fn info_views(s: Seq<PetInstanceInfo>) -> Seq<InfoView> {
    s.map_values(|i: PetInstanceInfo| i@)
}

/// What the pet manager is told of an instance.
pub open spec fn info_of(v: InstanceView) -> InfoView {
    InfoView { id: v.id, pet_id: v.pet_id, visible: v.visible, is_main: v.id == "main"@ }
}

/// The manager's view of one instance.
pub fn instance_info(instance: &PetInstanceConfig) -> (info: PetInstanceInfo)
    ensures
        info@ == info_of(instance@),
{
    PetInstanceInfo {
        id: instance.id.clone(),
        pet_id: instance.pet_id.clone(),
        visible: instance.visible,
        is_main: str_eq(instance.id.as_str(), "main"),
    }
}

/// `all_instance_info`: every configured instance, in order.
pub fn all_instance_info(config: &AppConfig) -> (res: Vec<PetInstanceInfo>)
    ensures
        info_views(res@) == config.instances_view().map_values(|v: InstanceView| info_of(v)),
{
    let ghost s = config.instances_view();
    let mut out: Vec<PetInstanceInfo> = Vec::new();
    let mut i: usize = 0;
    while i < config.instances.len()
        invariant
            s == config.instances_view(),
            0 <= i <= s.len(),
            info_views(out@) == s.take(i as int).map_values(|v: InstanceView| info_of(v)),
        decreases s.len() - i,
    {
        let ghost before = out@;
        out.push(instance_info(&config.instances[i]));
        assert(info_views(out@) =~= s.take(i + 1).map_values(|v: InstanceView| info_of(v))) by {
            assert(info_views(out@) =~= info_views(before).push(info_of(s[i as int])));
        }
        i = i + 1;
    }
    assert(s.take(s.len() as int) =~= s);
    out
}

/// The instance that `add_pet_instance` appends for `pet_id`.
pub open spec fn new_instance(pet_id: Seq<char>, n: u64) -> InstanceView {
    InstanceView { id: "instance-"@ + decimal(n as nat), pet_id, visible: true, position: None }
}

/// `add_pet_instance`: a disabled pet, or one already shown, is refused;
/// otherwise a visible instance `instance-{n}` is appended, the counter
/// advances, and the configuration is normalized. Returns what the manager
/// is told of the last instance.
pub fn add_pet_instance(config: &mut AppConfig, pet_id: &str) -> (res: Result<PetInstanceInfo, String>)
    requires
        old(config).wf(),
        old(config).next_instance_id < u64::MAX,
    ensures
        old(config).disabled_view().contains(pet_id@) ==> (res matches Err(e) && e@
            == "这只宠物已停用，请先启用它"@ && *final(config) == *old(config)),
        !old(config).disabled_view().contains(pet_id@) && has_pet(old(config).instances_view(), pet_id@)
            ==> (res matches Err(e) && e@ == "每种宠物只能显示一只"@ && *final(config) == *old(config)),
        !old(config).disabled_view().contains(pet_id@) && !has_pet(old(config).instances_view(), pet_id@)
            ==> {
            &&& normalized_from(
                *final(config),
                old(config).instances_view().push(new_instance(pet_id@, old(config).next_instance_id)),
                old(config).disabled_view(),
                old(config).settings_view(),
                old(config).settings,
                (old(config).next_instance_id + 1) as u64,
            )
            &&& final(config).instances_view().len() == 0 ==> (res matches Err(e) && e@ == "failed to create pet instance"@)
            &&& final(config).instances_view().len() > 0 ==> (res matches Ok(info) && info@ == info_of(final(config).instances_view().last()))
        },
{
    if is_disabled(config, pet_id) {
        return Err(String::from_str("这只宠物已停用，请先启用它"));
    }
    if pet_is_shown(config, pet_id) {
        return Err(String::from_str("每种宠物只能显示一只"));
    }
    let mut id = String::from_str("instance-");
    push_decimal(&mut id, config.next_instance_id);
    config.next_instance_id = config.next_instance_id + 1;
    let ghost before = config.instances_view();
    config.instances.push(PetInstanceConfig {
        id,
        pet_id: String::from_str(pet_id),
        visible: true,
        position: None,
    });
    assert(config.instances_view() =~= before.push(new_instance(pet_id@, old(config).next_instance_id)));
    normalize_config(config);
    let n = config.instances.len();
    if n == 0 {
        return Err(String::from_str("failed to create pet instance"));
    }
    Ok(instance_info(&config.instances[n - 1]))
}

/// The instances without `id`, in order.
pub open spec fn without_id(s: Seq<InstanceView>, id: Seq<char>) -> Seq<InstanceView>
    decreases s.len(),
{
    if s.len() == 0 {
        s
    } else {
        let r = without_id(s.drop_last(), id);
        if s.last().id == id {
            r
        } else {
            r.push(s.last())
        }
    }
}

/// `remove_pet_instance`: the main pet cannot be removed; otherwise every
/// instance with that id goes, which must be at least one.
pub fn remove_pet_instance(config: &mut AppConfig, instance_id: &str) -> (res: Result<(), String>)
    requires
        old(config).wf(),
    ensures
        instance_id@ == "main"@ ==> (res matches Err(e) && e@ == "默认宠物不能删除，只能隐藏"@
            && *final(config) == *old(config)),
        instance_id@ != "main"@ && without_id(old(config).instances_view(), instance_id@).len()
            == old(config).instances_view().len() ==> (res matches Err(e) && e@
            == "pet instance is not configured"@ && *final(config) == *old(config)),
        instance_id@ != "main"@ && without_id(old(config).instances_view(), instance_id@).len()
            != old(config).instances_view().len() ==> (res is Ok && normalized_from(
            *final(config),
            without_id(old(config).instances_view(), instance_id@),
            old(config).disabled_view(),
            old(config).settings_view(),
            old(config).settings,
            old(config).next_instance_id,
        )),
{
    if str_eq(instance_id, "main") {
        return Err(String::from_str("默认宠物不能删除，只能隐藏"));
    }
    let ghost s = config.instances_view();
    let mut kept: Vec<PetInstanceConfig> = Vec::new();
    let mut i: usize = 0;
    while i < config.instances.len()
        invariant
            s == config.instances_view(),
            0 <= i <= s.len(),
            instance_views(kept@) == without_id(s.take(i as int), instance_id@),
        decreases s.len() - i,
    {
        assert(s.take(i + 1).drop_last() =~= s.take(i as int));
        let ghost before = kept@;
        if !str_eq(config.instances[i].id.as_str(), instance_id) {
            kept.push(config.instances[i].duplicate());
            assert(instance_views(kept@) =~= instance_views(before).push(s[i as int]));
        }
        i = i + 1;
    }
    assert(s.take(s.len() as int) =~= s);
    if kept.len() == config.instances.len() {
        return Err(String::from_str("pet instance is not configured"));
    }
    config.instances = kept;
    normalize_config(config);
    Ok(())
}

/// The instances with the instance at `i` changed by `f`.
pub open spec fn with_visible(s: Seq<InstanceView>, i: int, visible: bool) -> Seq<InstanceView> {
    s.update(i, InstanceView { visible, ..s[i] })
}

/// `set_pet_instance_visible`'s change: the first instance with that id
/// becomes shown or hidden.
pub fn set_instance_visible(config: &mut AppConfig, instance_id: &str, visible: bool) -> (res: Result<(), String>)
    requires
        old(config).wf(),
    ensures
        index_of_id(old(config).instances_view(), instance_id@) is None ==> (res matches Err(e)
            && e@ == "pet instance is not configured"@ && *final(config) == *old(config)),
        index_of_id(old(config).instances_view(), instance_id@) matches Some(i) ==> (res is Ok
            && normalized_from(
            *final(config),
            with_visible(old(config).instances_view(), i, visible),
            old(config).disabled_view(),
            old(config).settings_view(),
            old(config).settings,
            old(config).next_instance_id,
        )),
{
    match find_instance(&config.instances, instance_id) {
        None => Err(String::from_str("pet instance is not configured")),
        Some(i) => {
            proof {
                lemma_index_of_id(config.instances_view(), instance_id@);
            }
            let ghost s = config.instances_view();
            let mut updated = config.instances[i].duplicate();
            updated.visible = visible;
            config.instances.set(i, updated);
            assert(config.instances_view() =~= with_visible(s, i as int, visible));
            normalize_config(config);
            Ok(())
        },
    }
}

/// `save_pet_position`'s change: the first instance with that id gets the
/// position. Whether the coordinates are finite is checked where floats are.
pub fn save_instance_position(config: &mut AppConfig, instance_id: &str, position: PetPosition) -> (res: Result<(), String>)
    requires
        old(config).wf(),
    ensures
        index_of_id(old(config).instances_view(), instance_id@) is None ==> (res matches Err(e)
            && e@ == "pet instance is not configured"@ && *final(config) == *old(config)),
        index_of_id(old(config).instances_view(), instance_id@) matches Some(i) ==> (res is Ok
            && normalized_from(
            *final(config),
            old(config).instances_view().update(i, InstanceView { position: Some(position), ..old(config).instances_view()[i] }),
            old(config).disabled_view(),
            old(config).settings_view(),
            old(config).settings,
            old(config).next_instance_id,
        )),
{
    match find_instance(&config.instances, instance_id) {
        None => Err(String::from_str("pet instance is not configured")),
        Some(i) => {
            proof {
                lemma_index_of_id(config.instances_view(), instance_id@);
            }
            let ghost s = config.instances_view();
            let mut updated = config.instances[i].duplicate();
            updated.position = Some(position);
            config.instances.set(i, updated);
            assert(config.instances_view() =~= s.update(i as int, InstanceView { position: Some(position), ..s[i as int] }));
            normalize_config(config);
            Ok(())
        },
    }
}

/// `update_pet_settings`'s change: the pet's settings are replaced (ranges
/// are enforced where floats are), and the configuration is normalized.
/// Returns the pet's settings as saved.
pub fn update_pet_settings(config: &mut AppConfig, pet_id: &str, settings: PetSettings) -> (saved: PetSettings)
    requires
        old(config).wf(),
    ensures
        normalized_from(
            *final(config),
            old(config).instances_view(),
            old(config).disabled_view(),
            old(config).settings_view().insert(pet_id@, settings),
            old(config).settings,
            old(config).next_instance_id,
        ),
        saved == settings_of(final(config).settings_view(), pet_id@),
{
    config.pet_settings.insert(String::from_str(pet_id), settings);
    normalize_config(config);
    settings_for_pet(config, pet_id)
}

/// A pet's settings with `paused` set.
pub open spec fn with_paused(s: PetSettings, paused: bool) -> PetSettings {
    PetSettings { paused, ..s }
}

/// `toggle_pet_pause`'s change: the pet's `paused` flips.
pub fn toggle_pet_pause(config: &mut AppConfig, pet_id: &str) -> (saved: PetSettings)
    requires
        old(config).wf(),
    ensures
        normalized_from(
            *final(config),
            old(config).instances_view(),
            old(config).disabled_view(),
            old(config).settings_view().insert(
                pet_id@,
                with_paused(
                    settings_of(old(config).settings_view(), pet_id@),
                    !settings_of(old(config).settings_view(), pet_id@).paused,
                ),
            ),
            old(config).settings,
            old(config).next_instance_id,
        ),
        saved == settings_of(final(config).settings_view(), pet_id@),
{
    let mut s = settings_for_pet(config, pet_id);
    s.paused = !s.paused;
    config.pet_settings.insert(String::from_str(pet_id), s);
    normalize_config(config);
    settings_for_pet(config, pet_id)
}

/// Pausing a pet twice leaves its `paused` as it was, and its other
/// settings too.
pub proof fn pause_twice_restores(m: Map<Seq<char>, PetSettings>, pet: Seq<char>)
    ensures
        ({
            let once = m.insert(pet, with_paused(settings_of(m, pet), !settings_of(m, pet).paused));
            let twice = once.insert(
                pet,
                with_paused(settings_of(once, pet), !settings_of(once, pet).paused),
            );
            settings_of(twice, pet) == settings_of(m, pet)
        }),
{
}

/// The pets of the instances, each once, in order of first appearance.
pub open spec fn pets_of(s: Seq<InstanceView>) -> Seq<Seq<char>> {
    crate::config::first_per_pet(s).map_values(|v: InstanceView| v.pet_id)
}

/// `toggle_all_pause`'s choice: pause everything when some shown pet is
/// running, otherwise let all run again.
pub open spec fn pause_all(m: Map<Seq<char>, PetSettings>, s: Seq<InstanceView>) -> bool {
    exists|i: int| 0 <= i < s.len() && !settings_of(m, (#[trigger] s[i]).pet_id).paused
}

/// Every pet of `pets` gets `paused`.
pub open spec fn paused_all(m: Map<Seq<char>, PetSettings>, pets: Seq<Seq<char>>, paused: bool) -> Map<Seq<char>, PetSettings> {
    Map::new(
        |k: Seq<char>| m.contains_key(k) || pets.contains(k),
        |k: Seq<char>| if pets.contains(k) { with_paused(settings_of(m, k), paused) } else { m[k] },
    )
}

/// The pets of the instances, each once, and whether some of them runs.
fn pets_and_choice(config: &AppConfig) -> (res: (Vec<String>, bool))
    requires
        config.wf(),
    ensures
        string_views(res.0@) == pets_of(config.instances_view()),
        res.1 == pause_all(config.settings_view(), config.instances_view()),
{
    let ghost s = config.instances_view();
    let ghost m0 = config.settings_view();
    let firsts = crate::config::first_instance_per_pet(&config.instances);
    let ghost fs = instance_views(firsts@);
    let mut pets: Vec<String> = Vec::new();
    let mut pause = false;
    let mut i: usize = 0;
    while i < firsts.len()
        invariant
            fs == instance_views(firsts@),
            fs == crate::config::first_per_pet(s),
            s == config.instances_view(),
            m0 == config.settings_view(),
            config.wf(),
            0 <= i <= fs.len(),
            string_views(pets@) == fs.take(i as int).map_values(|v: InstanceView| v.pet_id),
            pause == exists|j: int| 0 <= j < i && !settings_of(m0, (#[trigger] fs[j]).pet_id).paused,
        decreases fs.len() - i,
    {
        let ghost before = pets@;
        pets.push(firsts[i].pet_id.clone());
        assert(string_views(pets@) =~= fs.take(i + 1).map_values(|v: InstanceView| v.pet_id)) by {
            assert(string_views(pets@) =~= string_views(before).push(fs[i as int].pet_id));
        }
        let st = settings_for_pet(config, firsts[i].pet_id.as_str());
        if !st.paused {
            pause = true;
        }
        proof {
            if !settings_of(m0, fs[i as int].pet_id).paused {
                assert(0 <= i < i + 1 && !settings_of(m0, fs[i as int].pet_id).paused);
            }
            if exists|j: int| 0 <= j < i + 1 && !settings_of(m0, (#[trigger] fs[j]).pet_id).paused {
                let j = choose|j: int| 0 <= j < i + 1 && !settings_of(m0, (#[trigger] fs[j]).pet_id).paused;
                if j < i {
                    assert(0 <= j < i && !settings_of(m0, fs[j].pet_id).paused);
                }
            }
        }
        i = i + 1;
    }
    assert(fs.take(fs.len() as int) =~= fs);
    proof {
        lemma_pause_choice(s, m0);
    }
    (pets, pause)
}

/// Sets `paused` for each of `pets`, which are distinct.
fn set_paused(config: &mut AppConfig, pets: &Vec<String>, pause: bool)
    requires
        old(config).wf(),
        forall|i: int, j: int| 0 <= i < j < pets@.len() ==> string_views(pets@)[i] != string_views(pets@)[j],
    ensures
        final(config).wf(),
        final(config).settings_view() == paused_all(old(config).settings_view(), string_views(pets@), pause),
        final(config).instances_view() == old(config).instances_view(),
        final(config).disabled_view() == old(config).disabled_view(),
        final(config).settings == old(config).settings,
        final(config).next_instance_id == old(config).next_instance_id,
{
    let ghost m0 = config.settings_view();
    let ghost ps = string_views(pets@);
    let mut k: usize = 0;
    while k < pets.len()
        invariant
            config.wf(),
            ps == string_views(pets@),
            forall|i: int, j: int| 0 <= i < j < ps.len() ==> ps[i] != ps[j],
            0 <= k <= ps.len(),
            config.settings_view() == paused_all(m0, ps.take(k as int), pause),
            old(config).instances_view() == config.instances_view(),
            old(config).disabled_view() == config.disabled_view(),
            old(config).settings == config.settings,
            old(config).next_instance_id == config.next_instance_id,
            m0 == old(config).settings_view(),
        decreases ps.len() - k,
    {
        let ghost before = config.settings_view();
        let mut st = settings_for_pet(config, pets[k].as_str());
        st.paused = pause;
        config.pet_settings.insert(pets[k].clone(), st);
        proof {
            let t = ps.take(k + 1);
            assert(!ps.take(k as int).contains(ps[k as int])) by {
                if ps.take(k as int).contains(ps[k as int]) {
                    let j = choose|j: int| 0 <= j < k && ps.take(k as int)[j] == ps[k as int];
                    assert(ps[j] == ps[k as int]);
                }
            }
            assert(settings_of(before, ps[k as int]) == settings_of(m0, ps[k as int]));
            assert forall|q: Seq<char>| #[trigger] t.contains(q) <==> (ps.take(k as int).contains(q) || q == ps[k as int]) by {
                if t.contains(q) {
                    let j = choose|j: int| 0 <= j < t.len() && t[j] == q;
                    if j < k {
                        assert(ps.take(k as int)[j] == q);
                    }
                }
                if ps.take(k as int).contains(q) {
                    let j = choose|j: int| 0 <= j < k && ps.take(k as int)[j] == q;
                    assert(t[j] == q);
                }
                if q == ps[k as int] {
                    assert(t[k as int] == q);
                }
            }
            assert(config.settings_view() =~= paused_all(m0, t, pause));
        }
        k = k + 1;
    }
    assert(ps.take(ps.len() as int) =~= ps);
}

/// `toggle_all_pause`: when some shown pet runs, every shown pet is paused;
/// otherwise every shown pet runs again. Returns the pets it set, each once.
pub fn toggle_all_pause(config: &mut AppConfig) -> (pets: Vec<String>)
    requires
        old(config).wf(),
    ensures
        string_views(pets@) == pets_of(old(config).instances_view()),
        normalized_from(
            *final(config),
            old(config).instances_view(),
            old(config).disabled_view(),
            paused_all(
                old(config).settings_view(),
                pets_of(old(config).instances_view()),
                pause_all(old(config).settings_view(), old(config).instances_view()),
            ),
            old(config).settings,
            old(config).next_instance_id,
        ),
{
    let (pets, pause) = pets_and_choice(config);
    proof {
        lemma_pets_distinct(config.instances_view());
    }
    set_paused(config, &pets, pause);
    normalize_config(config);
    pets
}

/// Some pet of `first_per_pet` runs exactly when some instance's pet runs.
proof fn lemma_pause_choice(s: Seq<InstanceView>, m0: Map<Seq<char>, PetSettings>)
    ensures
        (exists|j: int| 0 <= j < crate::config::first_per_pet(s).len() && !settings_of(m0, (#[trigger] crate::config::first_per_pet(s)[j]).pet_id).paused)
            == pause_all(m0, s),
{
    let fs = crate::config::first_per_pet(s);
    lemma_firsts_cover(s);
    if exists|j: int| 0 <= j < fs.len() && !settings_of(m0, (#[trigger] fs[j]).pet_id).paused {
        let j = choose|j: int| 0 <= j < fs.len() && !settings_of(m0, (#[trigger] fs[j]).pet_id).paused;
        let k = choose|k: int| 0 <= k < s.len() && s[k] == fs[j];
        assert(!settings_of(m0, s[k].pet_id).paused);
    }
    if pause_all(m0, s) {
        let k = choose|k: int| 0 <= k < s.len() && !settings_of(m0, (#[trigger] s[k]).pet_id).paused;
        let j = choose|j: int| 0 <= j < fs.len() && fs[j].pet_id == s[k].pet_id;
        assert(!settings_of(m0, fs[j].pet_id).paused);
    }
}

/// Every pet of the instances has its first instance among `first_per_pet`,
/// and each of those is one of the instances.
pub proof fn lemma_firsts_cover(s: Seq<InstanceView>)
    ensures
        forall|k: int| 0 <= k < s.len() ==> exists|j: int| 0 <= j < crate::config::first_per_pet(s).len() && crate::config::first_per_pet(s)[j].pet_id == (#[trigger] s[k]).pet_id,
        forall|j: int| 0 <= j < crate::config::first_per_pet(s).len() ==> exists|k: int| 0 <= k < s.len() && s[k] == #[trigger] crate::config::first_per_pet(s)[j],
    decreases s.len(),
{
    crate::config::lemma_first_per_pet(s);
    if s.len() > 0 {
        let d = s.drop_last();
        lemma_firsts_cover(d);
        let r = crate::config::first_per_pet(d);
        let f = crate::config::first_per_pet(s);
        assert forall|k: int| 0 <= k < s.len() implies exists|j: int| 0 <= j < f.len() && f[j].pet_id == (#[trigger] s[k]).pet_id by {
            if k < d.len() {
                assert(s[k] == d[k]);
                let j = choose|j: int| 0 <= j < r.len() && r[j].pet_id == d[k].pet_id;
                assert(f[j] == r[j]);
            } else if has_pet(r, s.last().pet_id) {
                let j = choose|j: int| 0 <= j < r.len() && (#[trigger] r[j]).pet_id == s.last().pet_id;
                assert(f[j] == r[j]);
            } else {
                assert(f[r.len() as int] == s.last());
            }
        }
    }
}

/// The pets of `pets_of` are distinct.
pub proof fn lemma_pets_distinct(s: Seq<InstanceView>)
    ensures
        forall|i: int, j: int| 0 <= i < j < pets_of(s).len() ==> pets_of(s)[i] != pets_of(s)[j],
{
    crate::config::lemma_first_per_pet(s);
    let f = crate::config::first_per_pet(s);
    assert forall|i: int, j: int| 0 <= i < j < pets_of(s).len() implies pets_of(s)[i] != pets_of(s)[j] by {
        assert(f[i].pet_id != f[j].pet_id);
    }
}

/// The instances with the pet `pet` hidden.
pub open spec fn hide_pet(s: Seq<InstanceView>, pet: Seq<char>) -> Seq<InstanceView> {
    s.map_values(|v: InstanceView| if v.pet_id == pet { InstanceView { visible: false, ..v } } else { v })
}

/// Texts other than `t`.
pub open spec fn other_than(t: Seq<char>) -> spec_fn(Seq<char>) -> bool {
    |x: Seq<char>| x != t
}

/// The disabled ids after `set_pet_enabled(pet, enabled)`.
pub open spec fn disabled_after(d: Seq<Seq<char>>, pet: Seq<char>, enabled: bool) -> Seq<Seq<char>> {
    let rest = d.filter(other_than(pet));
    if enabled {
        rest
    } else {
        rest.push(pet)
    }
}

/// Removes `pet` from the disabled ids.
fn forget_disabled_id(config: &mut AppConfig, pet_id: &str)
    ensures
        final(config).disabled_view() == old(config).disabled_view().filter(other_than(pet_id@)),
        final(config).instances_view() == old(config).instances_view(),
        final(config).pet_settings == old(config).pet_settings,
        final(config).settings == old(config).settings,
        final(config).next_instance_id == old(config).next_instance_id,
{
    let ghost d = config.disabled_view();
    let mut kept: Vec<String> = Vec::new();
    let mut i: usize = 0;
    while i < config.disabled_pet_ids.len()
        invariant
            d == config.disabled_view(),
            0 <= i <= d.len(),
            string_views(kept@) == d.take(i as int).filter(other_than(pet_id@)),
        decreases d.len() - i,
    {
        assert(d.take(i + 1).drop_last() =~= d.take(i as int));
        assert(d.take(i + 1).last() == d[i as int]);
        reveal(Seq::filter);
        assert(d.take(i + 1).filter(other_than(pet_id@)) == if other_than(pet_id@)(d[i as int]) {
            d.take(i as int).filter(other_than(pet_id@)).push(d[i as int])
        } else {
            d.take(i as int).filter(other_than(pet_id@))
        });
        let ghost before = kept@;
        if !str_eq(config.disabled_pet_ids[i].as_str(), pet_id) {
            kept.push(config.disabled_pet_ids[i].clone());
            assert(string_views(kept@) =~= string_views(before).push(d[i as int]));
        }
        i = i + 1;
    }
    assert(d.take(d.len() as int) =~= d);
    config.disabled_pet_ids = kept;
}

/// `set_pet_enabled`'s change: the pet leaves the disabled list; when it
/// is disabled, it is added back at the end and its instances are hidden.
pub fn set_pet_enabled(config: &mut AppConfig, pet_id: &str, enabled: bool)
    requires
        old(config).wf(),
    ensures
        normalized_from(
            *final(config),
            if enabled {
                old(config).instances_view()
            } else {
                hide_pet(old(config).instances_view(), pet_id@)
            },
            disabled_after(old(config).disabled_view(), pet_id@, enabled),
            old(config).settings_view(),
            old(config).settings,
            old(config).next_instance_id,
        ),
{
    forget_disabled_id(config, pet_id);
    if !enabled {
        let ghost d = config.disabled_view();
        config.disabled_pet_ids.push(String::from_str(pet_id));
        assert(config.disabled_view() =~= d.push(pet_id@));
        let ghost s = config.instances_view();
        let mut i: usize = 0;
        while i < config.instances.len()
            invariant
                config.wf(),
                s.len() == config.instances_view().len(),
                0 <= i <= s.len(),
                forall|j: int| 0 <= j < i ==> config.instances_view()[j] == hide_pet(s, pet_id@)[j],
                forall|j: int| i <= j < s.len() ==> config.instances_view()[j] == s[j],
                config.disabled_view() == d.push(pet_id@),
                config.settings_view() == old(config).settings_view(),
                config.settings == old(config).settings,
                config.next_instance_id == old(config).next_instance_id,
            decreases s.len() - i,
        {
            let ghost before = config.instances_view();
            if str_eq(config.instances[i].pet_id.as_str(), pet_id) {
                let mut hidden = config.instances[i].duplicate();
                hidden.visible = false;
                config.instances.set(i, hidden);
                assert(config.instances_view() =~= before.update(i as int, hide_pet(s, pet_id@)[i as int]));
            } else {
                assert(before[i as int] == hide_pet(s, pet_id@)[i as int]);
            }
            i = i + 1;
        }
        assert(config.instances_view() =~= hide_pet(s, pet_id@));
    }
    normalize_config(config);
}

/// `remove_imported_pet`'s checks on the configuration: a bundled pet
/// cannot be removed, nor one that an instance shows. Whether its folder
/// exists is the caller's to check.
pub fn check_removable(config: &AppConfig, pet_id: &str, bundled: bool) -> (res: Result<(), String>)
    ensures
        bundled ==> (res matches Err(e) && e@ == "内置宠物不能删除，可以选择停用"@),
        !bundled && has_pet(config.instances_view(), pet_id@) ==> (res matches Err(e) && e@
            == "请先移除使用这只宠物的实例"@),
        !bundled && !has_pet(config.instances_view(), pet_id@) ==> res is Ok,
{
    if bundled {
        return Err(String::from_str("内置宠物不能删除，可以选择停用"));
    }
    if pet_is_shown(config, pet_id) {
        return Err(String::from_str("请先移除使用这只宠物的实例"));
    }
    Ok(())
}

/// After a pet's files are removed, it leaves the disabled list.
pub fn forget_removed_pet(config: &mut AppConfig, pet_id: &str)
    requires
        old(config).wf(),
    ensures
        normalized_from(
            *final(config),
            old(config).instances_view(),
            old(config).disabled_view().filter(other_than(pet_id@)),
            old(config).settings_view(),
            old(config).settings,
            old(config).next_instance_id,
        ),
{
    forget_disabled_id(config, pet_id);
    normalize_config(config);
}

/// An instance is on screen unless hidden or its pet is disabled.
pub open spec fn shown(d: Seq<Seq<char>>, v: InstanceView) -> bool {
    v.visible && !d.contains(v.pet_id)
}

/// Whether an instance's window is shown.
pub fn window_shown(config: &AppConfig, instance: &PetInstanceConfig) -> (b: bool)
    ensures
        b == shown(config.disabled_view(), instance@),
{
    instance.visible && !is_disabled(config, instance.pet_id.as_str())
}

/// The label of an instance window, or the empty text for an id without
/// one.
pub open spec fn label_text(id: Seq<char>) -> Seq<char> {
    match label_of(id) {
        Ok(l) => l,
        Err(_) => Seq::<char>::empty(),
    }
}

/// Shown instances whose window is among the open, visible ones.
pub open spec fn on_screen(d: Seq<Seq<char>>, open: Seq<Seq<char>>) -> spec_fn(InstanceView) -> bool {
    |v: InstanceView| shown(d, v) && open.contains(label_text(v.id))
}

/// What the manager is told of an instance on screen.
pub open spec fn visible_info(v: InstanceView) -> InfoView {
    InfoView { id: v.id, pet_id: v.pet_id, visible: true, is_main: v.id == "main"@ }
}

/// `visible_instances`: the shown instances whose windows are among
/// `open_labels` (the labels of the visible windows), in order.
pub fn visible_instances(config: &AppConfig, open_labels: &Vec<String>) -> (res: Vec<PetInstanceInfo>)
    ensures
        info_views(res@) == config.instances_view().filter(
            on_screen(config.disabled_view(), string_views(open_labels@)),
        ).map_values(|v: InstanceView| visible_info(v)),
{
    let ghost s = config.instances_view();
    let ghost p = on_screen(config.disabled_view(), string_views(open_labels@));
    let mut out: Vec<PetInstanceInfo> = Vec::new();
    let mut i: usize = 0;
    while i < config.instances.len()
        invariant
            s == config.instances_view(),
            p == on_screen(config.disabled_view(), string_views(open_labels@)),
            0 <= i <= s.len(),
            info_views(out@) == s.take(i as int).filter(p).map_values(|v: InstanceView| visible_info(v)),
        decreases s.len() - i,
    {
        reveal(Seq::filter);
        assert(s.take(i + 1).drop_last() =~= s.take(i as int));
        assert(s.take(i + 1).last() == s[i as int]);
        let instance = &config.instances[i];
        let label = match instance_label(instance.id.as_str()) {
            Ok(l) => l,
            Err(_) => String::new(),
        };
        assert(label@ == label_text(s[i as int].id));
        let ghost before = out@;
        if window_shown(config, instance) && contains_token(open_labels, label.as_str()) {
            out.push(PetInstanceInfo {
                id: instance.id.clone(),
                pet_id: instance.pet_id.clone(),
                visible: true,
                is_main: str_eq(instance.id.as_str(), "main"),
            });
            assert(info_views(out@) =~= info_views(before).push(visible_info(s[i as int])));
            assert(s.take(i + 1).filter(p) == s.take(i as int).filter(p).push(s[i as int]));
        } else {
            assert(s.take(i + 1).filter(p) == s.take(i as int).filter(p));
        }
        i = i + 1;
    }
    assert(s.take(s.len() as int) =~= s);
    out
}

/// Some shown instance's pet is set to show over full-screen apps.
pub open spec fn needs_accessory(config: AppConfig) -> bool {
    exists|i: int|
        0 <= i < config.instances_view().len() && shown(config.disabled_view(), #[trigger] config.instances_view()[i])
            && settings_of(config.settings_view(), config.instances_view()[i].pet_id).show_in_fullscreen
}

/// Whether macOS should run the app as an accessory, which a pet shown over
/// full-screen apps needs.
pub fn needs_accessory_policy(config: &AppConfig) -> (b: bool)
    requires
        config.wf(),
    ensures
        b == needs_accessory(*config),
{
    let ghost s = config.instances_view();
    let mut i: usize = 0;
    while i < config.instances.len()
        invariant
            config.wf(),
            s == config.instances_view(),
            0 <= i <= s.len(),
            forall|j: int| 0 <= j < i ==> !(shown(config.disabled_view(), #[trigger] s[j]) && settings_of(config.settings_view(), s[j].pet_id).show_in_fullscreen),
        decreases s.len() - i,
    {
        let instance = &config.instances[i];
        if window_shown(config, instance) && settings_for_pet(config, instance.pet_id.as_str()).show_in_fullscreen {
            assert(shown(config.disabled_view(), s[i as int]));
            return true;
        }
        i = i + 1;
    }
    false
}

/// Whether some shown instance's pet is among `existing` (the pets whose
/// resources are present).
pub fn has_visible_pet_config(config: &AppConfig, existing: &Vec<String>) -> (b: bool)
    ensures
        b == exists|i: int|
            0 <= i < config.instances_view().len() && shown(config.disabled_view(), #[trigger] config.instances_view()[i])
                && string_views(existing@).contains(config.instances_view()[i].pet_id),
{
    let ghost s = config.instances_view();
    let mut i: usize = 0;
    while i < config.instances.len()
        invariant
            s == config.instances_view(),
            0 <= i <= s.len(),
            forall|j: int| 0 <= j < i ==> !(shown(config.disabled_view(), #[trigger] s[j]) && string_views(existing@).contains(s[j].pet_id)),
        decreases s.len() - i,
    {
        let instance = &config.instances[i];
        if window_shown(config, instance) && contains_token(existing, instance.pet_id.as_str()) {
            assert(shown(config.disabled_view(), s[i as int]));
            return true;
        }
        i = i + 1;
    }
    false
}

/// The pets that may get a heartbeat: those of the visible instances that
/// are neither paused nor in quiet mode, in order.
pub fn heartbeat_candidates(config: &AppConfig, visible: &Vec<PetInstanceInfo>) -> (res: Vec<String>)
    requires
        config.wf(),
    ensures
        string_views(res@) == info_views(visible@).filter(
            |v: InfoView| !settings_of(config.settings_view(), v.pet_id).paused && !settings_of(config.settings_view(), v.pet_id).quiet_mode,
        ).map_values(|v: InfoView| v.pet_id),
{
    let ghost s = info_views(visible@);
    let ghost p = |v: InfoView| !settings_of(config.settings_view(), v.pet_id).paused && !settings_of(config.settings_view(), v.pet_id).quiet_mode;
    let mut out: Vec<String> = Vec::new();
    let mut i: usize = 0;
    while i < visible.len()
        invariant
            config.wf(),
            s == info_views(visible@),
            p == (|v: InfoView| !settings_of(config.settings_view(), v.pet_id).paused && !settings_of(config.settings_view(), v.pet_id).quiet_mode),
            0 <= i <= s.len(),
            string_views(out@) == s.take(i as int).filter(p).map_values(|v: InfoView| v.pet_id),
        decreases s.len() - i,
    {
        reveal(Seq::filter);
        assert(s.take(i + 1).drop_last() =~= s.take(i as int));
        assert(s.take(i + 1).last() == s[i as int]);
        let st = settings_for_pet(config, visible[i].pet_id.as_str());
        let ghost before = out@;
        if !st.paused && !st.quiet_mode {
            out.push(visible[i].pet_id.clone());
            assert(string_views(out@) =~= string_views(before).push(s[i as int].pet_id));
            assert(s.take(i + 1).filter(p) == s.take(i as int).filter(p).push(s[i as int]));
        } else {
            assert(s.take(i + 1).filter(p) == s.take(i as int).filter(p));
        }
        i = i + 1;
    }
    assert(s.take(s.len() as int) =~= s);
    out
}

/// The number of instances other than `main` without a saved position,
/// which places a new window further to the right.
pub fn unplaced_count(config: &AppConfig) -> (n: usize)
    ensures
        n == config.instances_view().filter(|v: InstanceView| v.id != "main"@ && v.position is None).len(),
{
    let ghost s = config.instances_view();
    let ghost p = |v: InstanceView| v.id != "main"@ && v.position is None;
    let mut n: usize = 0;
    let mut i: usize = 0;
    while i < config.instances.len()
        invariant
            s == config.instances_view(),
            p == (|v: InstanceView| v.id != "main"@ && v.position is None),
            0 <= i <= s.len(),
            n == s.take(i as int).filter(p).len(),
            n <= i,
        decreases s.len() - i,
    {
        reveal(Seq::filter);
        assert(s.take(i + 1).drop_last() =~= s.take(i as int));
        assert(s.take(i + 1).last() == s[i as int]);
        if !str_eq(config.instances[i].id.as_str(), "main") && config.instances[i].position.is_none() {
            n = n + 1;
        }
        i = i + 1;
    }
    assert(s.take(s.len() as int) =~= s);
    n
}

/// How the main window is restored: its pet's settings, its position and
/// whether it is shown; without a `main` instance, the legacy settings and
/// a shown window.
pub fn main_window_plan(config: &AppConfig) -> (res: (PetSettings, Option<PetPosition>, bool))
    requires
        config.wf(),
    ensures
        match index_of_id(config.instances_view(), "main"@) {
            Some(i) => res == (
                settings_of(config.settings_view(), config.instances_view()[i].pet_id),
                config.instances_view()[i].position,
                config.instances_view()[i].visible,
            ),
            None => res == (config.settings, None::<PetPosition>, true),
        },
{
    match find_instance(&config.instances, "main") {
        Some(i) => {
            proof {
                lemma_index_of_id(config.instances_view(), "main"@);
            }
            let instance = &config.instances[i];
            (settings_for_pet(config, instance.pet_id.as_str()), instance.position, instance.visible)
        },
        None => (config.settings, None, true),
    }
}

/// `toggle_all_visibility`'s target: show everything when nothing is shown,
/// else hide everything.
pub fn visibility_target(config: &AppConfig) -> (b: bool)
    ensures
        b == !exists|i: int| 0 <= i < config.instances_view().len() && (#[trigger] config.instances_view()[i]).visible,
{
    let ghost s = config.instances_view();
    let mut i: usize = 0;
    while i < config.instances.len()
        invariant
            s == config.instances_view(),
            0 <= i <= s.len(),
            forall|j: int| 0 <= j < i ==> !(#[trigger] s[j]).visible,
        decreases s.len() - i,
    {
        if config.instances[i].visible {
            assert(s[i as int].visible);
            return false;
        }
        i = i + 1;
    }
    true
}

/// The instance behind a pet window, as `get_runtime_config` finds it.
pub fn runtime_instance(config: &AppConfig, window_label: &str) -> (res: Result<usize, String>)
    ensures
        id_of_label(window_label@) is None ==> (res matches Err(e) && e@ == "invalid pet window label"@),
        id_of_label(window_label@) matches Some(id) ==> match index_of_id(config.instances_view(), id) {
            Some(i) => res == Ok::<usize, String>(i as usize),
            None => res matches Err(e) && e@ == "pet instance is not configured"@,
        },
{
    let id = match instance_id_from_label(window_label) {
        Some(id) => id,
        None => return Err(String::from_str("invalid pet window label")),
    };
    match find_instance(&config.instances, id.as_str()) {
        Some(i) => Ok(i),
        None => Err(String::from_str("pet instance is not configured")),
    }
}

/// Some instance with id `id` shows `pet`.
pub open spec fn has_instance(s: Seq<InstanceView>, id: Seq<char>, pet: Seq<char>) -> bool {
    exists|j: int| 0 <= j < s.len() && (#[trigger] s[j]).id == id && s[j].pet_id == pet
}

/// A pet window whose instance shows `pet`.
pub open spec fn window_of_pet(s: Seq<InstanceView>, pet: Seq<char>) -> spec_fn(Seq<char>) -> bool {
    |l: Seq<char>|
        (l == "main"@ || instance_label_prefix().is_prefix_of(l)) && match id_of_label(l) {
            Some(id) => has_instance(s, id, pet),
            None => false,
        }
}

/// The labels among `labels` of pet windows whose instance shows `pet_id`:
/// where its settings are applied.
pub fn labels_for_pet(config: &AppConfig, pet_id: &str, labels: &Vec<String>) -> (res: Vec<String>)
    ensures
        string_views(res@) == string_views(labels@).filter(window_of_pet(config.instances_view(), pet_id@)),
{
    let ghost s = string_views(labels@);
    let ghost p = window_of_pet(config.instances_view(), pet_id@);
    let mut out: Vec<String> = Vec::new();
    let mut i: usize = 0;
    while i < labels.len()
        invariant
            s == string_views(labels@),
            p == window_of_pet(config.instances_view(), pet_id@),
            0 <= i <= s.len(),
            string_views(out@) == s.take(i as int).filter(p),
        decreases s.len() - i,
    {
        reveal(Seq::filter);
        assert(s.take(i + 1).drop_last() =~= s.take(i as int));
        assert(s.take(i + 1).last() == s[i as int]);
        let label = &labels[i];
        let hit = match instance_id_from_label(label.as_str()) {
            Some(id) => is_pet_window_label(label.as_str()) && serves_pet(config, id.as_str(), pet_id),
            None => false,
        };
        let ghost before = out@;
        if hit {
            out.push(label.clone());
            assert(string_views(out@) =~= string_views(before).push(s[i as int]));
            assert(s.take(i + 1).filter(p) == s.take(i as int).filter(p).push(s[i as int]));
        } else {
            assert(s.take(i + 1).filter(p) == s.take(i as int).filter(p));
        }
        i = i + 1;
    }
    assert(s.take(s.len() as int) =~= s);
    out
}

/// Whether some instance with id `id` shows `pet_id`.
fn serves_pet(config: &AppConfig, id: &str, pet_id: &str) -> (b: bool)
    ensures
        b == has_instance(config.instances_view(), id@, pet_id@),
{
    let ghost s = config.instances_view();
    let mut i: usize = 0;
    while i < config.instances.len()
        invariant
            s == config.instances_view(),
            0 <= i <= s.len(),
            forall|j: int| 0 <= j < i ==> !((#[trigger] s[j]).id == id@ && s[j].pet_id == pet_id@),
        decreases s.len() - i,
    {
        if str_eq(config.instances[i].id.as_str(), id) && str_eq(config.instances[i].pet_id.as_str(), pet_id) {
            assert(s[i as int].id == id@ && s[i as int].pet_id == pet_id@);
            return true;
        }
        i = i + 1;
    }
    false
}

/// An instance whose window is kept above full-screen apps: shown, with its
/// pet set to show in full screen, and with a window label.
pub open spec fn overlaid(d: Seq<Seq<char>>, m: Map<Seq<char>, PetSettings>) -> spec_fn(InstanceView) -> bool {
    |v: InstanceView| shown(d, v) && settings_of(m, v.pet_id).show_in_fullscreen && label_of(v.id) is Ok
}

/// The window labels that the full-screen guard keeps on top, in order.
pub fn overlay_labels(config: &AppConfig) -> (res: Vec<String>)
    requires
        config.wf(),
    ensures
        string_views(res@) == config.instances_view().filter(
            overlaid(config.disabled_view(), config.settings_view()),
        ).map_values(|v: InstanceView| label_of(v.id)->Ok_0),
{
    let ghost s = config.instances_view();
    let ghost p = overlaid(config.disabled_view(), config.settings_view());
    let mut out: Vec<String> = Vec::new();
    let mut i: usize = 0;
    while i < config.instances.len()
        invariant
            config.wf(),
            s == config.instances_view(),
            p == overlaid(config.disabled_view(), config.settings_view()),
            0 <= i <= s.len(),
            string_views(out@) == s.take(i as int).filter(p).map_values(|v: InstanceView| label_of(v.id)->Ok_0),
        decreases s.len() - i,
    {
        reveal(Seq::filter);
        assert(s.take(i + 1).drop_last() =~= s.take(i as int));
        assert(s.take(i + 1).last() == s[i as int]);
        let instance = &config.instances[i];
        let ghost before = out@;
        let wanted = window_shown(config, instance) && settings_for_pet(config, instance.pet_id.as_str()).show_in_fullscreen;
        match instance_label(instance.id.as_str()) {
            Ok(label) => {
                if wanted {
                    out.push(label);
                    assert(string_views(out@) =~= string_views(before).push(label_of(s[i as int].id)->Ok_0));
                    assert(s.take(i + 1).filter(p) == s.take(i as int).filter(p).push(s[i as int]));
                } else {
                    assert(s.take(i + 1).filter(p) == s.take(i as int).filter(p));
                }
            },
            Err(_) => {
                assert(s.take(i + 1).filter(p) == s.take(i as int).filter(p));
            },
        }
        i = i + 1;
    }
    assert(s.take(s.len() as int) =~= s);
    out
}

/// A pet's saved settings read back: after `update_pet_settings` for a pet
/// with a safe id, its settings are the ones saved.
pub proof fn saved_settings_read_back(
    m: Map<Seq<char>, PetSettings>,
    legacy: PetSettings,
    instances: Seq<InstanceView>,
    pet: Seq<char>,
    settings: PetSettings,
)
    requires
        crate::pets::safe_id(pet),
    ensures
        settings_of(normalized_settings(m.insert(pet, settings), legacy, instances), pet) == settings,
{
}

/// Showing or hiding an instance of a consistent configuration changes
/// only that instance's visibility: normalizing keeps the result as it is.
pub proof fn visibility_change_is_kept(s: Seq<InstanceView>, i: int, visible: bool)
    requires
        instances_consistent(s),
        has_main(s),
        0 <= i < s.len(),
    ensures
        normalized_instances(with_visible(s, i, visible)) == with_visible(s, i, visible),
        with_visible(s, i, visible)[i].visible == visible,
        with_visible(s, i, visible)[i].id == s[i].id,
{
    let t = with_visible(s, i, visible);
    assert(instances_consistent(t)) by {
        assert forall|k: int| 0 <= k < t.len() implies instance_safe(#[trigger] t[k]) by {
            assert(instance_safe(s[k]));
        }
        assert forall|a: int, b: int| 0 <= a < b < t.len() implies (#[trigger] t[a]).pet_id != (#[trigger] t[b]).pet_id by {
            assert(s[a].pet_id != s[b].pet_id);
        }
    }
    assert(has_main(t)) by {
        let k = choose|k: int| 0 <= k < s.len() && (#[trigger] s[k]).id == "main"@;
        assert(t[k].id == "main"@);
    }
    consistent_instances_are_normalized(t);
}

/// Ten to the power `k`.
pub open spec fn pow10(k: nat) -> nat
    decreases k,
{
    if k == 0 {
        1
    } else {
        10 * pow10((k - 1) as nat)
    }
}

proof fn lemma_digit(d: nat)
    requires
        d < 10,
    ensures
        crate::pets::id_char(crate::text::digit_char(d)),
        crate::text::utf8_width(crate::text::digit_char(d)) == 1,
{
    let c = crate::text::digit_char(d);
    if d == 0 {
        assert(c == '0');
    } else if d == 1 {
        assert(c == '1');
    } else if d == 2 {
        assert(c == '2');
    } else if d == 3 {
        assert(c == '3');
    } else if d == 4 {
        assert(c == '4');
    } else if d == 5 {
        assert(c == '5');
    } else if d == 6 {
        assert(c == '6');
    } else if d == 7 {
        assert(c == '7');
    } else if d == 8 {
        assert(c == '8');
    } else {
        assert(c == '9');
    }
}

proof fn lemma_decimal_chars(n: nat)
    ensures
        forall|i: int| 0 <= i < decimal(n).len() ==> crate::pets::id_char(#[trigger] decimal(n)[i]) && crate::text::utf8_width(decimal(n)[i]) == 1,
        decimal(n).len() >= 1,
    decreases n,
{
    if n < 10 {
        lemma_digit(n);
    } else {
        lemma_decimal_chars(n / 10);
        lemma_digit(n % 10);
        let d = decimal(n / 10);
        assert forall|i: int| 0 <= i < decimal(n).len() implies crate::pets::id_char(#[trigger] decimal(n)[i]) && crate::text::utf8_width(decimal(n)[i]) == 1 by {
            if i < d.len() {
                assert(decimal(n)[i] == d[i]);
            }
        }
    }
}

proof fn lemma_decimal_len(n: nat, k: nat)
    requires
        k >= 1,
        n < pow10(k),
    ensures
        decimal(n).len() <= k,
    decreases k,
{
    if n >= 10 {
        assert(k >= 2) by {
            if k == 1 {
                assert(pow10(1) == 10 * pow10(0));
            }
        }
        let p = pow10((k - 1) as nat);
        assert(pow10(k) == 10 * p);
        assert(n / 10 < p) by (nonlinear_arith)
            requires
                n < 10 * p,
        ;
        lemma_decimal_len(n / 10, (k - 1) as nat);
    }
}

proof fn lemma_ascii_len(s: Seq<char>)
    requires
        forall|i: int| 0 <= i < s.len() ==> crate::text::utf8_width(#[trigger] s[i]) == 1,
    ensures
        crate::text::utf8_len(s) == s.len(),
    decreases s.len(),
{
    if s.len() > 0 {
        assert forall|i: int| 0 <= i < s.drop_first().len() implies crate::text::utf8_width(#[trigger] s.drop_first()[i]) == 1 by {
            assert(s.drop_first()[i] == s[i + 1]);
        }
        lemma_ascii_len(s.drop_first());
        assert(crate::text::utf8_width(s[0]) == 1);
    }
}

/// The id `add_pet_instance` gives is a safe id other than `main`.
pub proof fn new_instance_id_is_safe(n: u64)
    ensures
        crate::pets::safe_id(new_instance(Seq::empty(), n).id),
        new_instance(Seq::empty(), n).id != "main"@,
{
    let head = "instance-"@;
    let id = head + decimal(n as nat);
    reveal_strlit("instance-");
    reveal_strlit("main");
    lemma_decimal_chars(n as nat);
    assert(pow10(20) == 100000000000000000000) by {
        reveal_with_fuel(pow10, 21);
    }
    lemma_decimal_len(n as nat, 20);
    assert forall|i: int| 0 <= i < id.len() implies crate::pets::id_char(#[trigger] id[i]) && crate::text::utf8_width(id[i]) == 1 by {
        if i >= head.len() {
            assert(id[i] == decimal(n as nat)[i - head.len()]);
        }
    }
    lemma_ascii_len(id);
    assert(id[0] != "main"@[0]);
}

/// The instances without `id` are all of them when none has that id.
proof fn lemma_without_absent_id(s: Seq<InstanceView>, id: Seq<char>)
    requires
        forall|k: int| 0 <= k < s.len() ==> (#[trigger] s[k]).id != id,
    ensures
        without_id(s, id) == s,
    decreases s.len(),
{
    if s.len() > 0 {
        assert forall|k: int| 0 <= k < s.drop_last().len() implies (#[trigger] s.drop_last()[k]).id != id by {
            assert(s.drop_last()[k] == s[k]);
        }
        lemma_without_absent_id(s.drop_last(), id);
        assert(s.drop_last().push(s.last()) =~= s);
    }
}

/// Removing the instance just added undoes the addition: for a consistent
/// configuration with the main pet, adding a safe pet that is not shown
/// yet (under an id no instance has) appends exactly its new instance, and
/// removing that instance gives the instances back.
pub proof fn remove_undoes_add(s: Seq<InstanceView>, pet: Seq<char>, n: u64)
    requires
        instances_consistent(s),
        has_main(s),
        crate::pets::safe_id(pet),
        !has_pet(s, pet),
        forall|k: int| 0 <= k < s.len() ==> (#[trigger] s[k]).id != new_instance(pet, n).id,
    ensures
        normalized_instances(s.push(new_instance(pet, n))) == s.push(new_instance(pet, n)),
        new_instance(pet, n).id != "main"@,
        normalized_instances(without_id(s.push(new_instance(pet, n)), new_instance(pet, n).id)) == s,
{
    let v = new_instance(pet, n);
    let t = s.push(v);
    new_instance_id_is_safe(n);
    assert(v.id == new_instance(Seq::empty(), n).id);
    assert(instances_consistent(t)) by {
        assert forall|k: int| 0 <= k < t.len() implies instance_safe(#[trigger] t[k]) by {
            if k < s.len() {
                assert(t[k] == s[k]);
            }
        }
        assert forall|a: int, b: int| 0 <= a < b < t.len() implies (#[trigger] t[a]).pet_id != (#[trigger] t[b]).pet_id by {
            assert(t[a] == s[a]);
            if b < s.len() {
                assert(t[b] == s[b]);
            }
        }
    }
    assert(has_main(t)) by {
        let k = choose|k: int| 0 <= k < s.len() && (#[trigger] s[k]).id == "main"@;
        assert(t[k] == s[k]);
    }
    consistent_instances_are_normalized(t);
    assert(t.drop_last() =~= s);
    lemma_without_absent_id(s, v.id);
    consistent_instances_are_normalized(s);
}

/// Every shown pet is among `pets_of`.
proof fn lemma_pets_of_covers(s: Seq<InstanceView>, k: int)
    requires
        0 <= k < s.len(),
    ensures
        pets_of(s).contains(s[k].pet_id),
{
    lemma_firsts_cover(s);
    let f = crate::config::first_per_pet(s);
    let j = choose|j: int| 0 <= j < f.len() && f[j].pet_id == s[k].pet_id;
    assert(pets_of(s)[j] == s[k].pet_id);
}

/// "Pause / continue all" from the tray: when some shown pet runs, one
/// toggle pauses every shown pet, and a second toggle lets every shown pet
/// run again.
pub proof fn pause_all_twice_resumes(m: Map<Seq<char>, PetSettings>, s: Seq<InstanceView>)
    requires
        pause_all(m, s),
    ensures
        ({
            let once = paused_all(m, pets_of(s), true);
            let twice = paused_all(once, pets_of(s), pause_all(once, s));
            &&& forall|i: int| 0 <= i < s.len() ==> settings_of(once, (#[trigger] s[i]).pet_id).paused
            &&& !pause_all(once, s)
            &&& forall|i: int| 0 <= i < s.len() ==> !settings_of(twice, (#[trigger] s[i]).pet_id).paused
        }),
{
    let once = paused_all(m, pets_of(s), true);
    assert forall|i: int| 0 <= i < s.len() implies settings_of(once, (#[trigger] s[i]).pet_id).paused by {
        lemma_pets_of_covers(s, i);
    }
    assert(!pause_all(once, s));
    let twice = paused_all(once, pets_of(s), false);
    assert forall|i: int| 0 <= i < s.len() implies !settings_of(twice, (#[trigger] s[i]).pet_id).paused by {
        lemma_pets_of_covers(s, i);
    }
}

} // verus!
