//! The app's configuration: per-pet settings, the pet instances on screen,
//! the disabled pets, and how a loaded configuration is made consistent.
use vstd::prelude::*;

use crate::keyed::KeyedList;
use crate::pets::{is_safe_id, safe_id};
use crate::stream::string_views;
use crate::text::str_eq;

verus! {

/// The bits of `1.0f64`.
pub const ONE_BITS: u64 = 0x3FF0_0000_0000_0000u64;

/// The bits of `95.0f64`.
pub const SPEED_BITS: u64 = 0x4057_C000_0000_0000u64;

/// How one pet looks and behaves. Scale, opacity and speed are kept as the
/// IEEE-754 bits of their `f64` values; their ranges are enforced where
/// floats are computed.
#[derive(Clone, Copy, PartialEq, Eq, Structural)]
pub struct PetSettings {
    pub scale_bits: u64,
    pub opacity_bits: u64,
    pub speed_bits: u64,
    pub wander_enabled: bool,
    pub click_through: bool,
    pub lock_position: bool,
    pub quiet_mode: bool,
    pub show_in_fullscreen: bool,
    pub paused: bool,
}

pub open spec fn default_settings() -> PetSettings {
    PetSettings {
        scale_bits: ONE_BITS,
        opacity_bits: ONE_BITS,
        speed_bits: SPEED_BITS,
        wander_enabled: true,
        click_through: false,
        lock_position: false,
        quiet_mode: false,
        show_in_fullscreen: false,
        paused: false,
    }
}

impl Default for PetSettings {
    fn default() -> (s: Self)
        ensures
            s == default_settings(),
    {
        PetSettings {
            scale_bits: ONE_BITS,
            opacity_bits: ONE_BITS,
            speed_bits: SPEED_BITS,
            wander_enabled: true,
            click_through: false,
            lock_position: false,
            quiet_mode: false,
            show_in_fullscreen: false,
            paused: false,
        }
    }
}

/// A saved window position, as the bits of its two `f64` coordinates.
#[derive(Clone, Copy, PartialEq, Eq, Structural)]
pub struct PetPosition {
    pub x_bits: u64,
    pub y_bits: u64,
}

/// One pet on screen.
pub struct PetInstanceConfig {
    pub id: String,
    pub pet_id: String,
    pub visible: bool,
    pub position: Option<PetPosition>,
}

/// The mathematical form of a [`PetInstanceConfig`].
pub struct InstanceView {
    pub id: Seq<char>,
    pub pet_id: Seq<char>,
    pub visible: bool,
    pub position: Option<PetPosition>,
}

impl View for PetInstanceConfig {
    type V = InstanceView;

    open spec fn view(&self) -> InstanceView {
        InstanceView {
            id: self.id@,
            pet_id: self.pet_id@,
            visible: self.visible,
            position: self.position,
        }
    }
}

pub open spec fn instance_views(s: Seq<PetInstanceConfig>) -> Seq<InstanceView> {
    s.map_values(|i: PetInstanceConfig| i@)
}

/// The default pet that is always configured.
pub open spec fn main_instance() -> InstanceView {
    InstanceView { id: "main"@, pet_id: "sakimiao"@, visible: true, position: None }
}

impl PetInstanceConfig {
    pub fn main() -> (i: Self)
        ensures
            i@ == main_instance(),
    {
        PetInstanceConfig {
            id: String::from_str("main"),
            pet_id: String::from_str("sakimiao"),
            visible: true,
            position: None,
        }
    }

    /// A copy of this instance.
    pub fn duplicate(&self) -> (i: Self)
        ensures
            i@ == self@,
    {
        PetInstanceConfig {
            id: self.id.clone(),
            pet_id: self.pet_id.clone(),
            visible: self.visible,
            position: self.position,
        }
    }
}

/// The whole configuration. `settings` is the one set of settings of
/// configurations made before settings were kept per pet.
pub struct AppConfig {
    pub settings: PetSettings,
    pub pet_settings: KeyedList<PetSettings>,
    pub instances: Vec<PetInstanceConfig>,
    pub disabled_pet_ids: Vec<String>,
    pub next_instance_id: u64,
}

impl AppConfig {
    pub open spec fn wf(&self) -> bool {
        self.pet_settings.wf()
    }

    pub open spec fn instances_view(&self) -> Seq<InstanceView> {
        instance_views(self.instances@)
    }

    pub open spec fn disabled_view(&self) -> Seq<Seq<char>> {
        string_views(self.disabled_pet_ids@)
    }

    pub open spec fn settings_view(&self) -> Map<Seq<char>, PetSettings> {
        self.pet_settings.map()
    }
}

impl Default for AppConfig {
    fn default() -> (c: Self)
        ensures
            c.wf(),
            c.settings == default_settings(),
            c.settings_view() == Map::<Seq<char>, PetSettings>::empty(),
            c.instances_view() == seq![main_instance()],
            c.disabled_view() == Seq::<Seq<char>>::empty(),
            c.next_instance_id == 2,
    {
        let mut instances: Vec<PetInstanceConfig> = Vec::new();
        instances.push(PetInstanceConfig::main());
        let c = AppConfig {
            settings: PetSettings::default(),
            pet_settings: KeyedList::new(),
            instances,
            disabled_pet_ids: Vec::new(),
            next_instance_id: 2,
        };
        assert(c.instances_view() =~= seq![main_instance()]);
        assert(c.disabled_view() =~= Seq::<Seq<char>>::empty());
        c
    }
}

/// The settings of a pet: its own, or the defaults.
pub open spec fn settings_of(m: Map<Seq<char>, PetSettings>, pet_id: Seq<char>) -> PetSettings {
    if m.contains_key(pet_id) {
        m[pet_id]
    } else {
        default_settings()
    }
}

/// `settings_for_pet`.
pub fn settings_for_pet(config: &AppConfig, pet_id: &str) -> (s: PetSettings)
    requires
        config.wf(),
    ensures
        s == settings_of(config.settings_view(), pet_id@),
{
    match config.pet_settings.get(pet_id) {
        Some(s) => *s,
        None => PetSettings::default(),
    }
}

/// An instance with id `main` is configured.
pub open spec fn has_main(s: Seq<InstanceView>) -> bool {
    exists|i: int| 0 <= i < s.len() && (#[trigger] s[i]).id == "main"@
}

/// The instances, with the default pet put first when `main` is missing.
pub open spec fn with_main(s: Seq<InstanceView>) -> Seq<InstanceView> {
    if has_main(s) {
        s
    } else {
        seq![main_instance()] + s
    }
}

pub open spec fn instance_safe(v: InstanceView) -> bool {
    safe_id(v.id) && safe_id(v.pet_id)
}

/// The instances whose id and pet id are safe, in order.
pub open spec fn keep_safe(s: Seq<InstanceView>) -> Seq<InstanceView>
    decreases s.len(),
{
    if s.len() == 0 {
        s
    } else {
        let r = keep_safe(s.drop_last());
        if instance_safe(s.last()) {
            r.push(s.last())
        } else {
            r
        }
    }
}

/// Some instance shows the pet `pet`.
pub open spec fn has_pet(s: Seq<InstanceView>, pet: Seq<char>) -> bool {
    exists|j: int| 0 <= j < s.len() && (#[trigger] s[j]).pet_id == pet
}

/// The first instance of each pet, in order.
pub open spec fn first_per_pet(s: Seq<InstanceView>) -> Seq<InstanceView>
    decreases s.len(),
{
    if s.len() == 0 {
        s
    } else {
        let r = first_per_pet(s.drop_last());
        if has_pet(r, s.last().pet_id) {
            r
        } else {
            r.push(s.last())
        }
    }
}

/// The instances of a normalized configuration.
pub open spec fn normalized_instances(s: Seq<InstanceView>) -> Seq<InstanceView> {
    first_per_pet(keep_safe(with_main(s)))
}

/// The safe ids among `s`, in order.
pub open spec fn safe_texts(s: Seq<Seq<char>>) -> Seq<Seq<char>>
    decreases s.len(),
{
    if s.len() == 0 {
        s
    } else {
        let r = safe_texts(s.drop_last());
        if safe_id(s.last()) {
            r.push(s.last())
        } else {
            r
        }
    }
}

/// The per-pet settings of a normalized configuration: those under a safe
/// id are kept, and each configured pet without any gets `legacy`.
pub open spec fn normalized_settings(
    m: Map<Seq<char>, PetSettings>,
    legacy: PetSettings,
    instances: Seq<InstanceView>,
) -> Map<Seq<char>, PetSettings> {
    Map::new(
        |k: Seq<char>| (m.contains_key(k) && safe_id(k)) || has_pet(instances, k),
        |k: Seq<char>|
            if m.contains_key(k) && safe_id(k) {
                m[k]
            } else {
                legacy
            },
    )
}

fn has_main_instance(v: &Vec<PetInstanceConfig>) -> (b: bool)
    ensures
        b == has_main(instance_views(v@)),
{
    let ghost s = instance_views(v@);
    let mut i: usize = 0;
    while i < v.len()
        invariant
            s == instance_views(v@),
            0 <= i <= v@.len(),
            forall|j: int| 0 <= j < i ==> (#[trigger] s[j]).id != "main"@,
        decreases v@.len() - i,
    {
        if str_eq(v[i].id.as_str(), "main") {
            assert(s[i as int].id == "main"@);
            return true;
        }
        i = i + 1;
    }
    false
}

fn keep_safe_instances(v: &Vec<PetInstanceConfig>) -> (out: Vec<PetInstanceConfig>)
    ensures
        instance_views(out@) == keep_safe(instance_views(v@)),
{
    let ghost s = instance_views(v@);
    let mut out: Vec<PetInstanceConfig> = Vec::new();
    let mut i: usize = 0;
    while i < v.len()
        invariant
            s == instance_views(v@),
            0 <= i <= v@.len(),
            instance_views(out@) == keep_safe(s.take(i as int)),
        decreases v@.len() - i,
    {
        assert(s.take(i + 1).drop_last() =~= s.take(i as int));
        assert(s.take(i + 1).last() == v@[i as int]@);
        let ghost before = out@;
        if is_safe_id(v[i].id.as_str()) && is_safe_id(v[i].pet_id.as_str()) {
            out.push(v[i].duplicate());
            assert(instance_views(out@) =~= instance_views(before).push(v@[i as int]@));
        }
        i = i + 1;
    }
    assert(s.take(v@.len() as int) =~= s);
    out
}

fn shows_pet(v: &Vec<PetInstanceConfig>, pet_id: &str) -> (b: bool)
    ensures
        b == has_pet(instance_views(v@), pet_id@),
{
    let ghost s = instance_views(v@);
    let mut i: usize = 0;
    while i < v.len()
        invariant
            s == instance_views(v@),
            0 <= i <= v@.len(),
            forall|j: int| 0 <= j < i ==> (#[trigger] s[j]).pet_id != pet_id@,
        decreases v@.len() - i,
    {
        if str_eq(v[i].pet_id.as_str(), pet_id) {
            assert(s[i as int].pet_id == pet_id@);
            return true;
        }
        i = i + 1;
    }
    false
}

pub(crate) fn first_instance_per_pet(v: &Vec<PetInstanceConfig>) -> (out: Vec<PetInstanceConfig>)
    ensures
        instance_views(out@) == first_per_pet(instance_views(v@)),
{
    let ghost s = instance_views(v@);
    let mut out: Vec<PetInstanceConfig> = Vec::new();
    let mut i: usize = 0;
    while i < v.len()
        invariant
            s == instance_views(v@),
            0 <= i <= v@.len(),
            instance_views(out@) == first_per_pet(s.take(i as int)),
        decreases v@.len() - i,
    {
        assert(s.take(i + 1).drop_last() =~= s.take(i as int));
        assert(s.take(i + 1).last() == v@[i as int]@);
        let ghost before = out@;
        if !shows_pet(&out, v[i].pet_id.as_str()) {
            out.push(v[i].duplicate());
            assert(instance_views(out@) =~= instance_views(before).push(v@[i as int]@));
        }
        i = i + 1;
    }
    assert(s.take(v@.len() as int) =~= s);
    out
}

fn keep_safe_ids(v: &Vec<String>) -> (out: Vec<String>)
    ensures
        string_views(out@) == safe_texts(string_views(v@)),
{
    let ghost s = string_views(v@);
    let mut out: Vec<String> = Vec::new();
    let mut i: usize = 0;
    while i < v.len()
        invariant
            s == string_views(v@),
            0 <= i <= v@.len(),
            string_views(out@) == safe_texts(s.take(i as int)),
        decreases v@.len() - i,
    {
        assert(s.take(i + 1).drop_last() =~= s.take(i as int));
        assert(s.take(i + 1).last() == v@[i as int]@);
        let ghost before = out@;
        if is_safe_id(v[i].as_str()) {
            out.push(v[i].clone());
            assert(string_views(out@) =~= string_views(before).push(v@[i as int]@));
        }
        i = i + 1;
    }
    assert(s.take(v@.len() as int) =~= s);
    out
}

/// The safe keys of the per-pet settings.
fn safe_setting_keys(list: &KeyedList<PetSettings>) -> (keys: Vec<String>)
    requires
        list.wf(),
    ensures
        forall|k: Seq<char>|
            #![trigger string_views(keys@).contains(k)]
            string_views(keys@).contains(k) <==> (list.map().contains_key(k) && safe_id(k)),
{
    let ghost es = list.entries@;
    let mut keys: Vec<String> = Vec::new();
    let mut i: usize = 0;
    while i < list.entries.len()
        invariant
            es == list.entries@,
            list.wf(),
            0 <= i <= es.len(),
            forall|j: int| 0 <= j < keys@.len() ==> safe_id((#[trigger] keys@[j])@),
            forall|j: int| #![trigger keys@[j]] 0 <= j < keys@.len() ==> exists|b: int| 0 <= b < i && (#[trigger] es[b]).0@ == keys@[j]@,
            forall|b: int| 0 <= b < i && safe_id((#[trigger] es[b]).0@) ==> exists|j: int| 0 <= j < keys@.len() && (#[trigger] keys@[j])@ == es[b].0@,
        decreases es.len() - i,
    {
        let name: &String = &list.entries[i].0;
        if is_safe_id(name.as_str()) {
            let ghost before = keys@;
            keys.push(name.clone());
            proof {
                assert forall|j: int| #![trigger keys@[j]] 0 <= j < keys@.len() implies exists|b: int| 0 <= b < i + 1 && (#[trigger] es[b]).0@ == keys@[j]@ by {
                    if j < before.len() {
                        assert(keys@[j] == before[j]);
                        let b = choose|b: int| 0 <= b < i && (#[trigger] es[b]).0@ == before[j]@;
                        assert(0 <= b < i + 1 && es[b].0@ == keys@[j]@);
                    } else {
                        assert(0 <= i < i + 1 && es[i as int].0@ == keys@[j]@);
                    }
                }
                assert forall|b: int| 0 <= b < i + 1 && safe_id((#[trigger] es[b]).0@) implies exists|j: int| 0 <= j < keys@.len() && (#[trigger] keys@[j])@ == es[b].0@ by {
                    if b < i {
                        let j = choose|j: int| 0 <= j < before.len() && (#[trigger] before[j])@ == es[b].0@;
                        assert(keys@[j] == before[j]);
                    } else {
                        assert(keys@[before.len() as int]@ == es[b].0@);
                    }
                }
            }
        } else {
            proof {
                assert forall|j: int| #![trigger keys@[j]] 0 <= j < keys@.len() implies exists|b: int| 0 <= b < i + 1 && (#[trigger] es[b]).0@ == keys@[j]@ by {
                    let b = choose|b: int| 0 <= b < i && (#[trigger] es[b]).0@ == keys@[j]@;
                    assert(0 <= b < i + 1 && es[b].0@ == keys@[j]@);
                }
            }
        }
        i = i + 1;
    }
    proof {
        assert forall|k: Seq<char>| #![trigger string_views(keys@).contains(k)] string_views(keys@).contains(k) <==> (list.map().contains_key(k) && safe_id(k)) by {
            let sv = string_views(keys@);
            if sv.contains(k) {
                let j = choose|j: int| 0 <= j < sv.len() && sv[j] == k;
                assert(keys@[j]@ == k);
                let b = choose|b: int| 0 <= b < i && (#[trigger] es[b]).0@ == keys@[j]@;
                crate::keyed::lemma_value_at(es, b);
            }
            if list.map().contains_key(k) && safe_id(k) {
                let b = choose|b: int| 0 <= b < es.len() && (#[trigger] es[b]).0@ == k;
                let j = choose|j: int| 0 <= j < keys@.len() && (#[trigger] keys@[j])@ == es[b].0@;
                assert(sv[j] == k);
            }
        }
    }
    keys
}

/// `normalize_config`: the default pet is configured, unsafe ids are
/// dropped, each pet is shown at most once (its first instance stays), and
/// every shown pet has settings. Ranges of the float settings are enforced
/// where floats are computed.
pub fn normalize_config(config: &mut AppConfig)
    requires
        old(config).wf(),
    ensures
        final(config).wf(),
        final(config).settings == old(config).settings,
        final(config).next_instance_id == old(config).next_instance_id,
        final(config).instances_view() == normalized_instances(old(config).instances_view()),
        final(config).disabled_view() == safe_texts(old(config).disabled_view()),
        final(config).settings_view() == normalized_settings(
            old(config).settings_view(),
            old(config).settings,
            final(config).instances_view(),
        ),
{
    let ghost v0 = config.instances_view();
    if !has_main_instance(&config.instances) {
        config.instances.insert(0, PetInstanceConfig::main());
        assert(config.instances_view() =~= seq![main_instance()] + v0);
    }
    assert(config.instances_view() == with_main(v0));
    let safe = keep_safe_instances(&config.instances);
    config.instances = first_instance_per_pet(&safe);
    config.disabled_pet_ids = keep_safe_ids(&config.disabled_pet_ids);
    let ghost m0 = config.pet_settings.map();
    let keys = safe_setting_keys(&config.pet_settings);
    config.pet_settings.retain_keys(&keys);
    let ghost m1 = config.pet_settings.map();
    assert(m1 =~= Map::new(|k: Seq<char>| m0.contains_key(k) && safe_id(k), |k: Seq<char>| m0[k]));
    let legacy = config.settings;
    let ghost inst = config.instances_view();
    let ghost dis = config.disabled_view();
    let ghost nid = config.next_instance_id;
    let mut j: usize = 0;
    while j < config.instances.len()
        invariant
            config.pet_settings.wf(),
            inst == config.instances_view(),
            dis == config.disabled_view(),
            nid == config.next_instance_id,
            legacy == config.settings,
            0 <= j <= inst.len(),
            config.pet_settings.map() == normalized_settings(m0, legacy, inst.take(j as int)),
        decreases inst.len() - j,
    {
        let ghost before = config.pet_settings.map();
        let pet: &str = config.instances[j as usize].pet_id.as_str();
        assert(pet@ == inst[j as int].pet_id);
        let present = config.pet_settings.contains(pet);
        if !present {
            let key = String::from_str(pet);
            config.pet_settings.insert(key, legacy);
        }
        proof {
            let t = inst.take(j + 1);
            assert(t[j as int].pet_id == pet@);
            assert forall|k: Seq<char>| #[trigger] has_pet(t, k) <==> (has_pet(inst.take(j as int), k) || k == pet@) by {
                if has_pet(t, k) {
                    let b = choose|b: int| 0 <= b < t.len() && (#[trigger] t[b]).pet_id == k;
                    if b < j {
                        assert(inst.take(j as int)[b] == t[b]);
                    }
                }
                if has_pet(inst.take(j as int), k) {
                    let b = choose|b: int| 0 <= b < j && (#[trigger] inst.take(j as int)[b]).pet_id == k;
                    assert(t[b] == inst.take(j as int)[b]);
                }
            }
            assert(config.pet_settings.map() =~= normalized_settings(m0, legacy, t));
        }
        j = j + 1;
    }
    assert(inst.take(inst.len() as int) =~= inst);
}

/// Safe instances showing distinct pets.
pub open spec fn instances_consistent(s: Seq<InstanceView>) -> bool {
    &&& forall|i: int| 0 <= i < s.len() ==> instance_safe(#[trigger] s[i])
    &&& forall|i: int, j: int|
        0 <= i < j < s.len() ==> (#[trigger] s[i]).pet_id != (#[trigger] s[j]).pet_id
}

/// What a normalized configuration satisfies: consistent instances, safe
/// disabled ids, settings only under safe ids and for every shown pet.
pub open spec fn config_consistent(
    instances: Seq<InstanceView>,
    disabled: Seq<Seq<char>>,
    m: Map<Seq<char>, PetSettings>,
) -> bool {
    &&& instances_consistent(instances)
    &&& forall|i: int| 0 <= i < disabled.len() ==> safe_id(#[trigger] disabled[i])
    &&& forall|k: Seq<char>| #[trigger] m.contains_key(k) ==> safe_id(k)
    &&& forall|i: int| 0 <= i < instances.len() ==> m.contains_key((#[trigger] instances[i]).pet_id)
}

proof fn lemma_keep_safe(s: Seq<InstanceView>)
    ensures
        forall|i: int| 0 <= i < keep_safe(s).len() ==> instance_safe(#[trigger] keep_safe(s)[i]),
        (forall|i: int| 0 <= i < s.len() ==> instance_safe(#[trigger] s[i])) ==> keep_safe(s) == s,
    decreases s.len(),
{
    if s.len() > 0 {
        lemma_keep_safe(s.drop_last());
        let r = keep_safe(s.drop_last());
        if forall|i: int| 0 <= i < s.len() ==> instance_safe(#[trigger] s[i]) {
            assert forall|i: int| 0 <= i < s.drop_last().len() implies instance_safe(#[trigger] s.drop_last()[i]) by {
                assert(s.drop_last()[i] == s[i]);
            }
            assert(instance_safe(s[s.len() - 1]));
            assert(r.push(s.last()) =~= s);
        }
    }
}

pub proof fn lemma_first_per_pet(s: Seq<InstanceView>)
    ensures
        instances_consistent(first_per_pet(s)) <== (forall|i: int| 0 <= i < s.len() ==> instance_safe(#[trigger] s[i])),
        forall|i: int, j: int|
            0 <= i < j < first_per_pet(s).len() ==> (#[trigger] first_per_pet(s)[i]).pet_id != (#[trigger] first_per_pet(s)[j]).pet_id,
        forall|i: int| 0 <= i < first_per_pet(s).len() ==> exists|k: int| 0 <= k < s.len() && s[k] == #[trigger] first_per_pet(s)[i],
        instances_consistent(s) ==> first_per_pet(s) == s,
    decreases s.len(),
{
    if s.len() > 0 {
        let d = s.drop_last();
        lemma_first_per_pet(d);
        let r = first_per_pet(d);
        assert forall|i: int| 0 <= i < first_per_pet(s).len() implies exists|k: int| 0 <= k < s.len() && s[k] == #[trigger] first_per_pet(s)[i] by {
            if i < r.len() {
                let k = choose|k: int| 0 <= k < d.len() && d[k] == r[i];
                assert(s[k] == d[k]);
                assert(first_per_pet(s)[i] == r[i]);
            } else {
                assert(s[s.len() - 1] == first_per_pet(s)[i]);
            }
        }
        if !has_pet(r, s.last().pet_id) {
            let t = r.push(s.last());
            assert forall|i: int, j: int| 0 <= i < j < t.len() implies (#[trigger] t[i]).pet_id != (#[trigger] t[j]).pet_id by {
                if j == t.len() - 1 {
                    assert(r[i] == t[i]);
                } else {
                    assert(r[i] == t[i] && r[j] == t[j]);
                }
            }
        }
        if forall|i: int| 0 <= i < s.len() ==> instance_safe(#[trigger] s[i]) {
            assert forall|i: int| 0 <= i < first_per_pet(s).len() implies instance_safe(#[trigger] first_per_pet(s)[i]) by {
                let k = choose|k: int| 0 <= k < s.len() && s[k] == first_per_pet(s)[i];
            }
        }
        if instances_consistent(s) {
            assert(instances_consistent(d)) by {
                assert forall|i: int| 0 <= i < d.len() implies instance_safe(#[trigger] d[i]) by {
                    assert(d[i] == s[i]);
                }
                assert forall|i: int, j: int| 0 <= i < j < d.len() implies (#[trigger] d[i]).pet_id != (#[trigger] d[j]).pet_id by {
                    assert(d[i] == s[i] && d[j] == s[j]);
                }
            }
            assert(r == d);
            assert(!has_pet(r, s.last().pet_id)) by {
                if has_pet(r, s.last().pet_id) {
                    let b = choose|b: int| 0 <= b < r.len() && (#[trigger] r[b]).pet_id == s.last().pet_id;
                    assert(s[b] == d[b]);
                    assert(s[b].pet_id != s[s.len() - 1].pet_id);
                }
            }
            assert(r.push(s.last()) =~= s);
        }
    }
}

proof fn lemma_safe_texts(s: Seq<Seq<char>>)
    ensures
        forall|i: int| 0 <= i < safe_texts(s).len() ==> safe_id(#[trigger] safe_texts(s)[i]),
        (forall|i: int| 0 <= i < s.len() ==> safe_id(#[trigger] s[i])) ==> safe_texts(s) == s,
    decreases s.len(),
{
    if s.len() > 0 {
        lemma_safe_texts(s.drop_last());
        let r = safe_texts(s.drop_last());
        if safe_id(s.last()) {
            assert forall|i: int| 0 <= i < r.push(s.last()).len() implies safe_id(#[trigger] r.push(s.last())[i]) by {
                if i < r.len() {
                    assert(r.push(s.last())[i] == r[i]);
                }
            }
        }
        if forall|i: int| 0 <= i < s.len() ==> safe_id(#[trigger] s[i]) {
            assert forall|i: int| 0 <= i < s.drop_last().len() implies safe_id(#[trigger] s.drop_last()[i]) by {
                assert(s.drop_last()[i] == s[i]);
            }
            assert(safe_id(s[s.len() - 1]));
            assert(safe_texts(s.drop_last()).push(s.last()) =~= s);
        }
    }
}

/// A loaded configuration is made consistent: after `normalize_config`,
/// ids are safe, each pet is shown at most once, disabled ids are safe,
/// and settings exist exactly under safe ids, including every shown pet.
pub proof fn normalized_config_is_consistent(
    instances: Seq<InstanceView>,
    disabled: Seq<Seq<char>>,
    m: Map<Seq<char>, PetSettings>,
    legacy: PetSettings,
)
    ensures
        config_consistent(
            normalized_instances(instances),
            safe_texts(disabled),
            normalized_settings(m, legacy, normalized_instances(instances)),
        ),
{
    let w = with_main(instances);
    lemma_keep_safe(w);
    lemma_first_per_pet(keep_safe(w));
    lemma_safe_texts(disabled);
    let inst = normalized_instances(instances);
    let n = normalized_settings(m, legacy, inst);
    assert forall|k: Seq<char>| #[trigger] n.contains_key(k) implies safe_id(k) by {
        if has_pet(inst, k) {
            let b = choose|b: int| 0 <= b < inst.len() && (#[trigger] inst[b]).pet_id == k;
            assert(instance_safe(inst[b]));
        }
    }
    assert forall|i: int| 0 <= i < inst.len() implies n.contains_key((#[trigger] inst[i]).pet_id) by {
        assert(has_pet(inst, inst[i].pet_id));
    }
}

/// Normalizing is done once for all: a consistent configuration that has
/// the main pet is left as it is.
pub proof fn consistent_config_is_normalized(
    instances: Seq<InstanceView>,
    disabled: Seq<Seq<char>>,
    m: Map<Seq<char>, PetSettings>,
    legacy: PetSettings,
)
    requires
        config_consistent(instances, disabled, m),
        has_main(instances),
    ensures
        normalized_instances(instances) == instances,
        safe_texts(disabled) == disabled,
        normalized_settings(m, legacy, instances) == m,
{
    assert(with_main(instances) == instances);
    lemma_keep_safe(instances);
    assert(keep_safe(instances) == instances);
    lemma_first_per_pet(instances);
    lemma_safe_texts(disabled);
    lemma_settings_fixed(m, legacy, instances);
}

proof fn lemma_settings_fixed(
    m: Map<Seq<char>, PetSettings>,
    legacy: PetSettings,
    instances: Seq<InstanceView>,
)
    requires
        forall|k: Seq<char>| #[trigger] m.contains_key(k) ==> safe_id(k),
        forall|i: int| 0 <= i < instances.len() ==> m.contains_key((#[trigger] instances[i]).pet_id),
    ensures
        normalized_settings(m, legacy, instances) == m,
{
    let n = normalized_settings(m, legacy, instances);
    assert forall|k: Seq<char>| #[trigger] n.contains_key(k) == m.contains_key(k) by {
        if has_pet(instances, k) {
            let b = choose|b: int| 0 <= b < instances.len() && (#[trigger] instances[b]).pet_id == k;
        }
    }
    assert(n =~= m);
}

/// Normalizing twice gives what normalizing once gives, whenever the main
/// pet survives the first pass.
pub proof fn normalize_config_is_idempotent(
    instances: Seq<InstanceView>,
    disabled: Seq<Seq<char>>,
    m: Map<Seq<char>, PetSettings>,
    legacy: PetSettings,
)
    requires
        has_main(normalized_instances(instances)),
    ensures
        ({
            let i1 = normalized_instances(instances);
            let d1 = safe_texts(disabled);
            let m1 = normalized_settings(m, legacy, i1);
            &&& normalized_instances(i1) == i1
            &&& safe_texts(d1) == d1
            &&& normalized_settings(m1, legacy, normalized_instances(i1)) == m1
        }),
{
    normalized_config_is_consistent(instances, disabled, m, legacy);
    let i1 = normalized_instances(instances);
    consistent_config_is_normalized(i1, safe_texts(disabled), normalized_settings(m, legacy, i1), legacy);
}

/// Consistent instances that include the main pet are left as they are.
pub proof fn consistent_instances_are_normalized(s: Seq<InstanceView>)
    requires
        instances_consistent(s),
        has_main(s),
    ensures
        normalized_instances(s) == s,
{
    assert(with_main(s) == s);
    lemma_keep_safe(s);
    lemma_first_per_pet(s);
}

} // verus!
