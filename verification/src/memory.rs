//! Long-term memories: what is kept of each memory, which record of a
//! memory is current, how shared memories are updated and forgotten.
use vstd::prelude::*;

use crate::clock::now_ms;
use crate::clock::{bumped, RequestCounter};
use crate::json::{field, text_of, JsonValue, JsonView};
use crate::text::{byte_len, char_count, concat, str_eq, take_chars, take_chars_str, trim, trim_str, utf8_len, decimal, push_decimal};

verus! {

broadcast use vstd::seq_lib::group_to_multiset_ensures;

/// One remembered fact. The two scores are stored as the IEEE-754 bits of
/// their `f64` values: the library keeps them but never computes with them.
pub struct MemoryFact {
    pub id: String,
    pub content: String,
    pub kind: String,
    pub scope: String,
    pub importance_bits: u64,
    pub confidence_bits: u64,
    pub created_at: u64,
    pub updated_at: u64,
    pub status: String,
}

/// The mathematical form of a [`MemoryFact`].
pub struct FactView {
    pub id: Seq<char>,
    pub content: Seq<char>,
    pub kind: Seq<char>,
    pub scope: Seq<char>,
    pub importance_bits: u64,
    pub confidence_bits: u64,
    pub created_at: u64,
    pub updated_at: u64,
    pub status: Seq<char>,
}

impl View for MemoryFact {
    type V = FactView;

    open spec fn view(&self) -> FactView {
        FactView {
            id: self.id@,
            content: self.content@,
            kind: self.kind@,
            scope: self.scope@,
            importance_bits: self.importance_bits,
            confidence_bits: self.confidence_bits,
            created_at: self.created_at,
            updated_at: self.updated_at,
            status: self.status@,
        }
    }
}

/// The bits of `0.5f64`.
pub const HALF_BITS: u64 = 0x3FE0_0000_0000_0000u64;

/// The bits of `0.7f64`.
pub const SEVEN_TENTHS_BITS: u64 = 0x3FE6_6666_6666_6666u64;

pub open spec fn fact_views(fs: Seq<MemoryFact>) -> Seq<FactView> {
    fs.map_values(|f: MemoryFact| f@)
}

pub open spec fn is_active(f: FactView) -> bool {
    f.status == "active"@
}

impl MemoryFact {
    /// The default fact at time `now`: empty id and content, kind `fact`,
    /// scope `pet`, both scores 0.5, status `active`.
    pub fn blank(now: u64) -> (f: Self)
        ensures
            f.id@ == Seq::<char>::empty(),
            f.content@ == Seq::<char>::empty(),
            f.kind@ == "fact"@,
            f.scope@ == "pet"@,
            f.importance_bits == HALF_BITS,
            f.confidence_bits == HALF_BITS,
            f.created_at == now,
            f.updated_at == now,
            f.status@ == "active"@,
    {
        MemoryFact {
            id: String::new(),
            content: String::new(),
            kind: String::from_str("fact"),
            scope: String::from_str("pet"),
            importance_bits: HALF_BITS,
            confidence_bits: HALF_BITS,
            created_at: now,
            updated_at: now,
            status: String::from_str("active"),
        }
    }

    /// A copy of this fact.
    pub fn duplicate(&self) -> (f: Self)
        ensures
            f@ == self@,
    {
        MemoryFact {
            id: self.id.clone(),
            content: self.content.clone(),
            kind: self.kind.clone(),
            scope: self.scope.clone(),
            importance_bits: self.importance_bits,
            confidence_bits: self.confidence_bits,
            created_at: self.created_at,
            updated_at: self.updated_at,
            status: self.status.clone(),
        }
    }
}

impl Default for MemoryFact {
    fn default() -> (f: Self)
        ensures
            f.id@ == Seq::<char>::empty(),
            f.content@ == Seq::<char>::empty(),
            f.kind@ == "fact"@,
            f.scope@ == "pet"@,
            f.importance_bits == HALF_BITS,
            f.confidence_bits == HALF_BITS,
            f.status@ == "active"@,
    {
        let mut f = MemoryFact::blank(now_ms());
        f.updated_at = now_ms();
        f
    }
}

/// The record that deletes the memory `id` (appended to a pet's memory log).
pub fn tombstone(id: &str, now: u64) -> (f: MemoryFact)
    ensures
        f.id@ == id@,
        f.status@ == "deleted"@,
        f.content@ == Seq::<char>::empty(),
        f.kind@ == "fact"@,
        f.scope@ == "pet"@,
        f.importance_bits == HALF_BITS,
        f.confidence_bits == HALF_BITS,
        f.created_at == now,
        f.updated_at == now,
{
    let mut f = MemoryFact::blank(now);
    f.id = String::from_str(id);
    f.status = String::from_str("deleted");
    f
}

fn is_active_fact(f: &MemoryFact) -> (b: bool)
    ensures
        b == is_active(f@),
{
    str_eq(f.status.as_str(), "active")
}

/// The active facts, in order.
pub fn active_facts(facts: &Vec<MemoryFact>) -> (res: Vec<MemoryFact>)
    ensures
        fact_views(res@) == fact_views(facts@).filter(|f: FactView| is_active(f)),
{
    let ghost all = fact_views(facts@);
    let mut out: Vec<MemoryFact> = Vec::new();
    let mut i: usize = 0;
    while i < facts.len()
        invariant
            0 <= i <= facts@.len(),
            all == fact_views(facts@),
            fact_views(out@) == all.take(i as int).filter(|f: FactView| is_active(f)),
        decreases facts@.len() - i,
    {
        let ghost before = out@;
        assert(all.take(i + 1).drop_last() =~= all.take(i as int));
        reveal_with_fuel(Seq::filter, 1);
        if is_active_fact(&facts[i]) {
            out.push(facts[i].duplicate());
            assert(fact_views(out@) =~= fact_views(before).push(facts@[i as int]@));
        }
        i = i + 1;
    }
    assert(all.take(i as int) =~= all);
    out
}

/// The facts with a non-empty id, in order.
pub fn facts_with_ids(facts: Vec<MemoryFact>) -> (res: Vec<MemoryFact>)
    ensures
        fact_views(res@) == fact_views(facts@).filter(|f: FactView| f.id.len() > 0),
{
    let ghost all = fact_views(facts@);
    let mut out: Vec<MemoryFact> = Vec::new();
    let mut i: usize = 0;
    while i < facts.len()
        invariant
            0 <= i <= facts@.len(),
            all == fact_views(facts@),
            fact_views(out@) == all.take(i as int).filter(|f: FactView| f.id.len() > 0),
        decreases facts@.len() - i,
    {
        let ghost before = out@;
        assert(all.take(i + 1).drop_last() =~= all.take(i as int));
        reveal_with_fuel(Seq::filter, 1);
        if char_count(facts[i].id.as_str()) > 0 {
            out.push(facts[i].duplicate());
            assert(fact_views(out@) =~= fact_views(before).push(facts@[i as int]@));
        }
        i = i + 1;
    }
    assert(all.take(i as int) =~= all);
    out
}

/// The lines `- {content}` of the active facts, joined with `\n`.
pub open spec fn profile_lines(fs: Seq<FactView>) -> Seq<char>
    decreases fs.len(),
{
    if fs.len() == 0 {
        Seq::empty()
    } else {
        let rest = profile_lines(fs.drop_last());
        let line = "- "@ + fs.last().content;
        if !is_active(fs.last()) {
            rest
        } else if !has_active(fs.drop_last()) {
            line
        } else {
            rest + "\n"@ + line
        }
    }
}

pub open spec fn has_active(fs: Seq<FactView>) -> bool {
    exists|i: int| 0 <= i < fs.len() && is_active(#[trigger] fs[i])
}

/// `load_profile`: the shared user profile text given to the model.
pub fn profile_text(facts: &Vec<MemoryFact>) -> (res: String)
    ensures
        res@ == profile_lines(fact_views(facts@)),
{
    let ghost all = fact_views(facts@);
    let mut out = String::new();
    let mut any = false;
    let mut i: usize = 0;
    assert(all.take(0) =~= Seq::<FactView>::empty());
    while i < facts.len()
        invariant
            0 <= i <= facts@.len(),
            all == fact_views(facts@),
            out@ == profile_lines(all.take(i as int)),
            any == has_active(all.take(i as int)),
            !any ==> out@.len() == 0,
        decreases facts@.len() - i,
    {
        assert(all.take(i + 1).drop_last() =~= all.take(i as int));
        assert(all.take(i + 1).last() == facts@[i as int]@);
        if is_active_fact(&facts[i]) {
            if any {
                out.append("\n");
            }
            out.append("- ");
            out.append(facts[i].content.as_str());
            proof {
                assert(has_active(all.take(i + 1))) by {
                    assert(is_active(all.take(i + 1)[i as int]));
                }
            }
            any = true;
        } else {
            proof {
                if has_active(all.take(i + 1)) {
                    let j = choose|j: int| 0 <= j < i + 1 && is_active(#[trigger] all.take(i + 1)[j]);
                    assert(all.take(i as int)[j] == all.take(i + 1)[j]);
                }
                if has_active(all.take(i as int)) {
                    let j = choose|j: int| 0 <= j < i && is_active(#[trigger] all.take(i as int)[j]);
                    assert(all.take(i + 1)[j] == all.take(i as int)[j]);
                }
            }
        }
        i = i + 1;
    }
    assert(all.take(i as int) =~= all);
    out
}

/// The first position of a fact with the given id.
pub open spec fn find_id(fs: Seq<FactView>, id: Seq<char>) -> Option<int>
    decreases fs.len(),
{
    if fs.len() == 0 {
        None
    } else if fs[0].id == id {
        Some(0)
    } else {
        match find_id(fs.drop_first(), id) {
            Some(i) => Some(i + 1),
            None => None,
        }
    }
}

pub proof fn lemma_find_id(fs: Seq<FactView>, id: Seq<char>)
    ensures
        find_id(fs, id) matches Some(i) ==> 0 <= i < fs.len() && fs[i].id == id && forall|j: int|
            0 <= j < i ==> fs[j].id != id,
        find_id(fs, id) is None ==> forall|j: int| 0 <= j < fs.len() ==> fs[j].id != id,
    decreases fs.len(),
{
    if fs.len() > 0 {
        lemma_find_id(fs.drop_first(), id);
        if fs[0].id != id {
            assert forall|j: int| 1 <= j < fs.len() implies fs[j] == fs.drop_first()[j - 1] by {}
        }
    }
}

fn position_of_id(facts: &Vec<MemoryFact>, id: &str) -> (res: Option<usize>)
    ensures
        match res {
            Some(i) => find_id(fact_views(facts@), id@) == Some(i as int),
            None => find_id(fact_views(facts@), id@) is None,
        },
{
    let ghost all = fact_views(facts@);
    let mut i: usize = 0;
    assert(all.skip(0) =~= all);
    while i < facts.len()
        invariant
            0 <= i <= facts@.len(),
            all == fact_views(facts@),
            forall|j: int| 0 <= j < i ==> all[j].id != id@,
        decreases facts@.len() - i,
    {
        assert(all[i as int] == facts@[i as int]@);
        if str_eq(facts[i].id.as_str(), id) {
            proof {
                lemma_find_id(all, id@);
                match find_id(all, id@) {
                    Some(k) => {
                        if k > i {
                            assert(all[i as int].id != id@);
                        }
                        if k < i {
                            assert(all[k].id != id@);
                        }
                    },
                    None => {
                        assert(all[i as int].id != id@);
                    },
                }
            }
            return Some(i);
        }
        i = i + 1;
    }
    proof {
        lemma_find_id(all, id@);
    }
    None
}

/// `facts` with the first fact that has `fact`'s id replaced by `fact`, or
/// with `fact` added at the end when no fact has its id.
pub open spec fn replace_or_push(fs: Seq<FactView>, fact: FactView) -> Seq<FactView> {
    match find_id(fs, fact.id) {
        Some(i) => fs.update(i, fact),
        None => fs.push(fact),
    }
}

fn replace_or_push_exec(facts: Vec<MemoryFact>, fact: MemoryFact) -> (res: Vec<MemoryFact>)
    ensures
        fact_views(res@) == replace_or_push(fact_views(facts@), fact@),
{
    let mut facts = facts;
    let ghost fv = fact@;
    proof {
        lemma_find_id(fact_views(facts@), fact@.id);
    }
    match position_of_id(&facts, fact.id.as_str()) {
        Some(i) => {
            let ghost before = facts@;
            facts.set(i, fact);
            assert(fact_views(facts@) =~= fact_views(before).update(i as int, fv));
        },
        None => {
            let ghost before = facts@;
            facts.push(fact);
            assert(fact_views(facts@) =~= fact_views(before).push(fv));
        },
    }
    facts
}

pub open spec fn has_active_content(fs: Seq<FactView>, content: Seq<char>) -> bool {
    exists|i: int| 0 <= i < fs.len() && is_active(#[trigger] fs[i]) && fs[i].content == content
}

/// `append_shared_memory`: the new shared list, or `None` when nothing is
/// to be written because an active shared memory already says the same.
pub fn upsert_shared_memory(facts: Vec<MemoryFact>, fact: MemoryFact) -> (res: Option<
    Vec<MemoryFact>,
>)
    ensures
        find_id(fact_views(facts@), fact@.id) is Some ==> (res matches Some(r) && fact_views(r@)
            == replace_or_push(fact_views(facts@), fact@)),
        find_id(fact_views(facts@), fact@.id) is None ==> if has_active_content(
            fact_views(facts@),
            fact@.content,
        ) {
            res is None
        } else {
            res matches Some(r) && fact_views(r@) == fact_views(facts@).push(fact@)
        },
{
    if position_of_id(&facts, fact.id.as_str()).is_some() {
        return Some(replace_or_push_exec(facts, fact));
    }
    let ghost all = fact_views(facts@);
    let mut i: usize = 0;
    while i < facts.len()
        invariant
            0 <= i <= facts@.len(),
            all == fact_views(facts@),
            forall|j: int| 0 <= j < i ==> !(is_active(all[j]) && all[j].content == fact@.content),
            find_id(all, fact@.id) is None,
        decreases facts@.len() - i,
    {
        if is_active_fact(&facts[i]) && str_eq(facts[i].content.as_str(), fact.content.as_str()) {
            assert(has_active_content(all, fact@.content)) by {
                assert(is_active(all[i as int]) && all[i as int].content == fact@.content);
            }
            return None;
        }
        i = i + 1;
    }
    let ghost fv = fact@;
    let mut facts = facts;
    facts.push(fact);
    assert(fact_views(facts@) =~= all.push(fv));
    Some(facts)
}

/// `update_shared_memory`'s list: `memory` replaces the first shared fact
/// with its id, or is added.
pub fn put_shared_memory(facts: Vec<MemoryFact>, memory: MemoryFact) -> (res: Vec<MemoryFact>)
    ensures
        fact_views(res@) == replace_or_push(fact_views(facts@), memory@),
{
    replace_or_push_exec(facts, memory)
}

/// The facts that a deletion by `target` hits: by id, and also by content
/// when `by_content` is set.
pub open spec fn hit(f: FactView, target: Seq<char>, by_content: bool) -> bool {
    f.id == target || (by_content && f.content == target)
}

/// The list after marking the hit facts deleted at `now`.
pub open spec fn marked_deleted(fs: Seq<FactView>, target: Seq<char>, by_content: bool, now: u64) -> Seq<
    FactView,
> {
    fs.map_values(
        |f: FactView|
            if hit(f, target, by_content) {
                FactView { status: "deleted"@, updated_at: now, ..f }
            } else {
                f
            },
    )
}

/// Deleting a memory marks it and nothing else: the list keeps its length
/// and order; every fact whose id is the target (whether or not contents
/// count), and with `by_content` every fact whose content is the target,
/// becomes `deleted` at `now` with all else kept; every other fact is left
/// as it was.
pub proof fn deleting_marks_exactly_the_target(fs: Seq<FactView>, target: Seq<char>, by_content: bool, now: u64)
    ensures
        marked_deleted(fs, target, by_content, now).len() == fs.len(),
        forall|i: int|
            0 <= i < fs.len() ==> {
                let f = fs[i];
                let g = #[trigger] marked_deleted(fs, target, by_content, now)[i];
                if f.id == target || (by_content && f.content == target) {
                    &&& g.status == "deleted"@
                    &&& g.updated_at == now
                    &&& g.id == f.id && g.content == f.content && g.kind == f.kind
                    &&& g.scope == f.scope && g.importance_bits == f.importance_bits
                    &&& g.confidence_bits == f.confidence_bits && g.created_at == f.created_at
                } else {
                    g == f
                }
            },
{
}

/// `delete_shared_memory` (by id) and the shared branch of `forget_memory`
/// (by id or content): every hit fact is marked deleted at `now`.
pub fn mark_deleted(facts: Vec<MemoryFact>, target: &str, by_content: bool, now: u64) -> (res: Vec<
    MemoryFact,
>)
    ensures
        fact_views(res@) == marked_deleted(fact_views(facts@), target@, by_content, now),
{
    let ghost all = fact_views(facts@);
    let mut facts = facts;
    let mut i: usize = 0;
    while i < facts.len()
        invariant
            0 <= i <= facts@.len(),
            all.len() == facts@.len(),
            forall|j: int|
                0 <= j < i ==> #[trigger] facts@[j]@ == marked_deleted(all, target@, by_content, now)[j],
            forall|j: int| i <= j < facts@.len() ==> #[trigger] facts@[j]@ == all[j],
        decreases facts@.len() - i,
    {
        let hit_here = str_eq(facts[i].id.as_str(), target) || (by_content && str_eq(
            facts[i].content.as_str(),
            target,
        ));
        if hit_here {
            let mut f = facts[i].duplicate();
            f.status = String::from_str("deleted");
            f.updated_at = now;
            facts.set(i, f);
        }
        i = i + 1;
    }
    assert(fact_views(facts@) =~= marked_deleted(all, target@, by_content, now));
    facts
}

/// The id that forgetting `target` deletes among a pet's current memories:
/// the first memory with that id or that content, else `target` itself.
pub open spec fn forget_id(fs: Seq<FactView>, target: Seq<char>) -> Seq<char>
    decreases fs.len(),
{
    if fs.len() == 0 {
        target
    } else if hit(fs[0], target, true) {
        fs[0].id
    } else {
        forget_id(fs.drop_first(), target)
    }
}

/// Storing a shared memory keeps one record per id: when a fact already has
/// the new fact's id, the first such fact is replaced by it in place and
/// every other fact is kept; otherwise the new fact is added at the end
/// and the old facts are kept in order. Either way the new fact is stored.
pub proof fn storing_a_memory_replaces_or_adds_it(fs: Seq<FactView>, f: FactView)
    ensures
        replace_or_push(fs, f).contains(f),
        (exists|j: int| 0 <= j < fs.len() && (#[trigger] fs[j]).id == f.id) ==> {
            &&& replace_or_push(fs, f).len() == fs.len()
            &&& exists|i: int|
                0 <= i < fs.len() && fs[i].id == f.id && #[trigger] replace_or_push(fs, f)[i] == f
                    && forall|j: int| 0 <= j < i ==> fs[j].id != f.id
            &&& forall|j: int|
                0 <= j < fs.len() && fs[j].id != f.id ==> #[trigger] replace_or_push(fs, f)[j]
                    == fs[j]
        },
        (forall|j: int| 0 <= j < fs.len() ==> (#[trigger] fs[j]).id != f.id) ==> {
            &&& replace_or_push(fs, f).len() == fs.len() + 1
            &&& replace_or_push(fs, f).last() == f
            &&& replace_or_push(fs, f).take(fs.len() as int) == fs
        },
{
    lemma_find_id(fs, f.id);
    let r = replace_or_push(fs, f);
    match find_id(fs, f.id) {
        Some(i) => {
            assert(r[i] == f);
        },
        None => {
            assert(r[fs.len() as int] == f);
            assert(r.take(fs.len() as int) =~= fs);
        },
    }
}

/// Forgetting a pet memory deletes the first memory whose id or content is
/// the target, under its own id; when none matches, the target is taken as
/// the id.
pub proof fn forgetting_picks_the_first_matching_memory(fs: Seq<FactView>, target: Seq<char>)
    ensures
        (forall|j: int|
            0 <= j < fs.len() ==> (#[trigger] fs[j]).id != target && fs[j].content != target)
            ==> forget_id(fs, target) == target,
        (exists|j: int|
            0 <= j < fs.len() && ((#[trigger] fs[j]).id == target || fs[j].content == target))
            ==> exists|i: int|
            0 <= i < fs.len() && (#[trigger] fs[i]).id == forget_id(fs, target) && (fs[i].id
                == target || fs[i].content == target) && forall|j: int|
                0 <= j < i ==> fs[j].id != target && fs[j].content != target,
    decreases fs.len(),
{
    if fs.len() > 0 {
        let rest = fs.drop_first();
        forgetting_picks_the_first_matching_memory(rest, target);
        if !(fs[0].id == target || fs[0].content == target) {
            assert forall|j: int| 1 <= j < fs.len() implies fs[j] == rest[j - 1] by {}
            if exists|j: int|
                0 <= j < fs.len() && ((#[trigger] fs[j]).id == target || fs[j].content == target) {
                let j0 = choose|j: int|
                    0 <= j < fs.len() && ((#[trigger] fs[j]).id == target || fs[j].content == target);
                assert(rest[j0 - 1] == fs[j0]);
                let i = choose|i: int|
                    0 <= i < rest.len() && (#[trigger] rest[i]).id == forget_id(rest, target) && (
                    rest[i].id == target || rest[i].content == target) && forall|j: int|
                        0 <= j < i ==> rest[j].id != target && rest[j].content != target;
                assert(fs[i + 1] == rest[i]);
                assert forall|j: int| 0 <= j < i + 1 implies fs[j].id != target && fs[j].content
                    != target by {
                    if j > 0 {
                        assert(fs[j] == rest[j - 1]);
                    }
                }
            } else {
                assert forall|j: int| 0 <= j < rest.len() implies (#[trigger] rest[j]).id != target
                    && rest[j].content != target by {
                    assert(rest[j] == fs[j + 1]);
                }
            }
        }
    }
}

/// `forget_memory` for a pet memory: the id to delete.
pub fn forget_target_id(memories: &Vec<MemoryFact>, target: &str) -> (res: String)
    ensures
        res@ == forget_id(fact_views(memories@), target@),
{
    let ghost all = fact_views(memories@);
    let mut i: usize = 0;
    assert(all.skip(0) =~= all);
    while i < memories.len()
        invariant
            0 <= i <= memories@.len(),
            all == fact_views(memories@),
            forget_id(all, target@) == forget_id(all.skip(i as int), target@),
        decreases memories@.len() - i,
    {
        assert(all.skip(i as int)[0] == memories@[i as int]@);
        if str_eq(memories[i].id.as_str(), target) || str_eq(memories[i].content.as_str(), target) {
            return memories[i].id.clone();
        }
        assert(all.skip(i as int).drop_first() =~= all.skip(i + 1));
        i = i + 1;
    }
    String::from_str(target)
}

/// What `store_memory` does with a new fact.
#[derive(PartialEq, Eq, Structural)]
pub enum StoreDecision {
    /// Nothing: the content is blank, or the pet already remembers it.
    Skip,
    /// Add or update it among the shared memories.
    Shared,
    /// Append it to the pet's memory log.
    AppendPet,
}

/// `store_memory`: a blank fact is skipped; a shared fact goes to the
/// shared memories; a pet fact is appended unless a current pet memory has
/// the same content.
pub fn store_decision(fact: &MemoryFact, existing: &Vec<MemoryFact>) -> (d: StoreDecision)
    ensures
        trim(fact@.content).len() == 0 ==> d == StoreDecision::Skip,
        trim(fact@.content).len() > 0 && fact@.scope == "shared"@ ==> d == StoreDecision::Shared,
        trim(fact@.content).len() > 0 && fact@.scope != "shared"@ ==> d == if exists|i: int|
            0 <= i < existing@.len() && #[trigger] existing@[i]@.content == fact@.content {
            StoreDecision::Skip
        } else {
            StoreDecision::AppendPet
        },
{
    let t = trim_str(fact.content.as_str());
    if char_count(t.as_str()) == 0 {
        return StoreDecision::Skip;
    }
    if str_eq(fact.scope.as_str(), "shared") {
        return StoreDecision::Shared;
    }
    let mut i: usize = 0;
    while i < existing.len()
        invariant
            0 <= i <= existing@.len(),
            forall|j: int| 0 <= j < i ==> #[trigger] existing@[j]@.content != fact@.content,
            trim(fact@.content).len() > 0,
            fact@.scope != "shared"@,
        decreases existing@.len() - i,
    {
        if str_eq(existing[i].content.as_str(), fact.content.as_str()) {
            assert(existing@[i as int]@.content == fact@.content);
            return StoreDecision::Skip;
        }
        i = i + 1;
    }
    StoreDecision::AppendPet
}

pub open spec fn memory_error() -> Seq<char> {
    "记忆内容不能为空且不能超过 300 个字符"@
}

pub open spec fn content_ok(content: Seq<char>) -> bool {
    trim(content).len() > 0 && content.len() <= 300
}

/// `update_memory`'s check of an edited pet memory: a non-empty id of at
/// most 100 bytes and non-blank content of at most 300 characters.
pub fn check_pet_memory(memory: &MemoryFact) -> (res: Result<(), String>)
    ensures
        (memory@.id.len() > 0 && utf8_len(memory@.id) <= 100 && content_ok(memory@.content))
            ==> res is Ok,
        !(memory@.id.len() > 0 && utf8_len(memory@.id) <= 100 && content_ok(memory@.content))
            ==> (res matches Err(e) && e@ == memory_error()),
{
    let t = trim_str(memory.content.as_str());
    if char_count(memory.id.as_str()) == 0 || byte_len(memory.id.as_str()) > 100 || char_count(
        t.as_str(),
    ) == 0 || char_count(memory.content.as_str()) > 300 {
        return Err(String::from_str("记忆内容不能为空且不能超过 300 个字符"));
    }
    Ok(())
}

/// `update_shared_memory`'s check: a non-empty id and non-blank content of
/// at most 300 characters.
pub fn check_shared_memory(memory: &MemoryFact) -> (res: Result<(), String>)
    ensures
        (memory@.id.len() > 0 && content_ok(memory@.content)) ==> res is Ok,
        !(memory@.id.len() > 0 && content_ok(memory@.content)) ==> (res matches Err(e) && e@
            == memory_error()),
{
    let t = trim_str(memory.content.as_str());
    if char_count(memory.id.as_str()) == 0 || char_count(t.as_str()) == 0 || char_count(
        memory.content.as_str(),
    ) > 300 {
        return Err(String::from_str("记忆内容不能为空且不能超过 300 个字符"));
    }
    Ok(())
}

/// An edited memory as it is saved: the given scope, active, trimmed
/// content, updated at `now`.
pub fn edited_memory(memory: MemoryFact, scope: &str, now: u64) -> (res: MemoryFact)
    ensures
        res@ == (FactView {
            scope: scope@,
            status: "active"@,
            content: trim(memory@.content),
            updated_at: now,
            ..memory@
        }),
{
    let mut memory = memory;
    memory.scope = String::from_str(scope);
    memory.status = String::from_str("active");
    memory.content = trim_str(memory.content.as_str());
    memory.updated_at = now;
    memory
}

/// A change to the memories proposed by the model.
pub struct MemoryOperation {
    pub action: String,
    pub target: String,
    pub content: String,
    pub kind: String,
    pub scope: String,
    /// The position of the proposing entry in the model's `facts` array;
    /// its scores are read from there.
    pub fact_index: usize,
}

#[verifier::ext_equal]
pub struct OperationView {
    pub action: Seq<char>,
    pub target: Seq<char>,
    pub content: Seq<char>,
    pub kind: Seq<char>,
    pub scope: Seq<char>,
    pub fact_index: int,
}

impl View for MemoryOperation {
    type V = OperationView;

    open spec fn view(&self) -> OperationView {
        OperationView {
            action: self.action@,
            target: self.target@,
            content: self.content@,
            kind: self.kind@,
            scope: self.scope@,
            fact_index: self.fact_index as int,
        }
    }
}

pub open spec fn text_or(v: Option<Seq<char>>, d: Seq<char>) -> Seq<char> {
    match v {
        Some(s) => s,
        None => d,
    }
}

/// The operation that one entry of the model's `facts` array proposes, if
/// it is a usable one.
pub open spec fn operation_of(v: JsonView, idx: int) -> Option<OperationView> {
    let action = text_or(text_of(field(v, "action"@)), "add"@);
    if !(action == "add"@ || action == "update"@ || action == "forget"@) {
        None
    } else {
        let content = trim(text_or(text_of(field(v, "content"@)), Seq::empty()));
        let target0 = trim(text_or(text_of(field(v, "target"@)), Seq::empty()));
        let target = if target0.len() == 0 && action == "forget"@ {
            content
        } else {
            target0
        };
        if (action != "forget"@ && content.len() == 0) || (action == "forget"@ && target.len()
            == 0) {
            None
        } else {
            Some(
                OperationView {
                    action,
                    target: take_chars(target, 300),
                    content: take_chars(content, 300),
                    kind: text_or(text_of(field(v, "kind"@)), "fact"@),
                    scope: text_or(text_of(field(v, "scope"@)), "pet"@),
                    fact_index: idx,
                },
            )
        }
    }
}

/// The usable operations of `items[from..]`, in order.
pub open spec fn operations_from(items: Seq<JsonView>, from: int) -> Seq<OperationView>
    decreases items.len() - from,
{
    if from < 0 || from >= items.len() {
        seq![]
    } else {
        match operation_of(items[from], from) {
            Some(op) => seq![op] + operations_from(items, from + 1),
            None => operations_from(items, from + 1),
        }
    }
}

/// The `facts` array of the model's answer (empty when there is none).
pub open spec fn facts_array(v: JsonView) -> Seq<JsonView> {
    match field(v, "facts"@) {
        Some(JsonView::Array(items)) => items,
        _ => seq![],
    }
}

pub open spec fn operation_views(ops: Seq<MemoryOperation>) -> Seq<OperationView> {
    ops.map_values(|o: MemoryOperation| o@)
}

fn text_field_or(v: &JsonValue, key: &str, default: &str) -> (res: String)
    ensures
        res@ == text_or(text_of(field(v@, key@)), default@),
{
    match v.get(key) {
        Some(x) => match x.as_str() {
            Some(t) => String::from_str(t),
            None => String::from_str(default),
        },
        None => String::from_str(default),
    }
}

fn operation_from(v: &JsonValue, idx: usize) -> (res: Option<MemoryOperation>)
    ensures
        match res {
            Some(op) => operation_of(v@, idx as int) == Some(op@),
            None => operation_of(v@, idx as int) is None,
        },
{
    let action = text_field_or(v, "action", "add");
    let is_forget = str_eq(action.as_str(), "forget");
    if !(str_eq(action.as_str(), "add") || str_eq(action.as_str(), "update") || is_forget) {
        return None;
    }
    let raw_content = text_field_or(v, "content", "");
    let content = trim_str(raw_content.as_str());
    let raw_target = text_field_or(v, "target", "");
    let target0 = trim_str(raw_target.as_str());
    proof {
        reveal_strlit("");
    }
    let target = if char_count(target0.as_str()) == 0 && is_forget {
        String::from_str(content.as_str())
    } else {
        target0
    };
    if (!is_forget && char_count(content.as_str()) == 0) || (is_forget && char_count(
        target.as_str(),
    ) == 0) {
        return None;
    }
    let op = MemoryOperation {
        action,
        target: take_chars_str(target.as_str(), 300),
        content: take_chars_str(content.as_str(), 300),
        kind: text_field_or(v, "kind", "fact"),
        scope: text_field_or(v, "scope", "pet"),
        fact_index: idx,
    };
    assert(op@ =~= operation_of(v@, idx as int)->0);
    Some(op)
}

impl JsonValue {
    /// `Value::as_array`.
    pub fn as_array(&self) -> (res: Option<&Vec<JsonValue>>)
        ensures
            match res {
                Some(items) => self@ == JsonView::Array(crate::json::views(items@)),
                None => !(self@ is Array),
            },
    {
        match self {
            JsonValue::Array(items) => {
                proof {
                    crate::json::lemma_array_view(*items);
                }
                Some(items)
            },
            _ => None,
        }
    }
}

/// `extract_memories` after the model answered and its answer was parsed:
/// the usable operations of the `facts` array, in order.
pub fn memory_operations(value: &JsonValue) -> (res: Vec<MemoryOperation>)
    ensures
        operation_views(res@) == operations_from(facts_array(value@), 0),
{
    let mut out: Vec<MemoryOperation> = Vec::new();
    let items = match value.get("facts") {
        Some(f) => match f.as_array() {
            Some(items) => items,
            None => {
                return out;
            },
        },
        None => {
            return out;
        },
    };
    let ghost iv = crate::json::views(items@);
    assert(facts_array(value@) == iv);
    let mut i: usize = 0;
    while i < items.len()
        invariant
            0 <= i <= items@.len(),
            iv == crate::json::views(items@),
            operations_from(iv, 0) == operation_views(out@) + operations_from(iv, i as int),
        decreases items@.len() - i,
    {
        let ghost before = out@;
        match operation_from(&items[i], i) {
            Some(op) => {
                let ghost ov = op@;
                out.push(op);
                assert(operation_views(out@) =~= operation_views(before).push(ov));
                assert(operations_from(iv, i as int) =~= seq![ov] + operations_from(iv, i + 1));
            },
            None => {},
        }
        i = i + 1;
    }
    assert(operations_from(iv, i as int) =~= Seq::<OperationView>::empty());
    out
}

/// `memory-{now}-{n}`.
pub open spec fn memory_id_text(now: nat, n: nat) -> Seq<char> {
    "memory-"@ + decimal(now) + "-"@ + decimal(n)
}

/// `memory_from_operation`: the fact an operation stores, under the given
/// id or a fresh `memory-{now}-{n}` one, with the scores the model gave.
pub fn memory_from_operation(
    operation: &MemoryOperation,
    id: Option<String>,
    importance_bits: u64,
    confidence_bits: u64,
    now: u64,
    counter: &mut RequestCounter,
) -> (f: MemoryFact)
    ensures
        match id {
            Some(given) => f.id@ == given@ && final(counter).next == old(counter).next,
            None => f.id@ == memory_id_text(now as nat, old(counter).next as nat)
                && final(counter).next == bumped(old(counter).next),
        },
        f.content@ == operation.content@,
        f.kind@ == operation.kind@,
        f.scope@ == if operation.scope@ == "shared"@ {
            "shared"@
        } else {
            "pet"@
        },
        f.importance_bits == importance_bits,
        f.confidence_bits == confidence_bits,
        f.created_at == now,
        f.updated_at == now,
        f.status@ == "active"@,
{
    let id = match id {
        Some(given) => given,
        None => {
            let n = counter.take();
            let mut out = String::from_str("memory-");
            push_decimal(&mut out, now);
            out.append("-");
            push_decimal(&mut out, n);
            out
        },
    };
    let scope = if str_eq(operation.scope.as_str(), "shared") {
        String::from_str("shared")
    } else {
        String::from_str("pet")
    };
    MemoryFact {
        id,
        content: operation.content.clone(),
        kind: operation.kind.clone(),
        scope,
        importance_bits,
        confidence_bits,
        created_at: now,
        updated_at: now,
        status: String::from_str("active"),
    }
}

/// The current pet memories of a memory log: for each non-empty id its
/// last record, kept when that record is active; in log order.
pub open spec fn current_memories(fs: Seq<FactView>) -> Seq<FactView>
    decreases fs.len(),
{
    if fs.len() == 0 {
        seq![]
    } else {
        let rest = current_memories(fs.drop_first());
        if fs[0].id.len() > 0 && is_active(fs[0]) && !(exists|k: int|
            0 <= k < fs.drop_first().len() && #[trigger] fs.drop_first()[k].id == fs[0].id) {
            seq![fs[0]] + rest
        } else {
            rest
        }
    }
}

/// Newest first.
pub open spec fn newest_first(r: Seq<FactView>) -> bool {
    forall|i: int, j: int| 0 <= i < j < r.len() ==> r[i].updated_at >= r[j].updated_at
}

fn has_later_id(facts: &Vec<MemoryFact>, i: usize) -> (b: bool)
    requires
        i < facts@.len(),
    ensures
        b == exists|k: int|
            i < k < facts@.len() && #[trigger] facts@[k]@.id == facts@[i as int]@.id,
{
    let n: usize = facts.len();
    let mut j: usize = i + 1;
    while j < n
        invariant
            n == facts@.len(),
            i < j <= facts@.len(),
            forall|k: int| i < k < j ==> #[trigger] facts@[k]@.id != facts@[i as int]@.id,
        decreases facts@.len() - j,
    {
        if str_eq(facts[j].id.as_str(), facts[i].id.as_str()) {
            assert(facts@[j as int]@.id == facts@[i as int]@.id);
            return true;
        }
        j = j + 1;
    }
    false
}

/// `load_memories` once the log is read: the current memories, newest
/// first (records with equal times keep log order).
pub fn latest_active_memories(facts: &Vec<MemoryFact>) -> (res: Vec<MemoryFact>)
    ensures
        newest_first(fact_views(res@)),
        fact_views(res@).to_multiset() == current_memories(fact_views(facts@)).to_multiset(),
{
    let ghost all = fact_views(facts@);
    let mut kept: Vec<MemoryFact> = Vec::new();
    let mut i: usize = 0;
    assert(all.skip(0) =~= all);
    while i < facts.len()
        invariant
            0 <= i <= facts@.len(),
            all == fact_views(facts@),
            current_memories(all) == fact_views(kept@) + current_memories(all.skip(i as int)),
        decreases facts@.len() - i,
    {
        let ghost t = all.skip(i as int);
        assert(t[0] == facts@[i as int]@);
        assert(t.drop_first() =~= all.skip(i + 1));
        let later = has_later_id(facts, i);
        proof {
            if later {
                let k = choose|k: int|
                    i < k < facts@.len() && #[trigger] facts@[k]@.id == facts@[i as int]@.id;
                assert(t.drop_first()[k - i - 1].id == t[0].id);
            } else {
                assert forall|k: int| 0 <= k < t.drop_first().len() implies #[trigger] t.drop_first()[k].id
                    != t[0].id by {
                    assert(t.drop_first()[k] == facts@[i + 1 + k]@);
                }
            }
        }
        let ghost before = kept@;
        if char_count(facts[i].id.as_str()) > 0 && is_active_fact(&facts[i]) && !later {
            kept.push(facts[i].duplicate());
            assert(fact_views(kept@) =~= fact_views(before).push(t[0]));
            assert(fact_views(before) + (seq![t[0]] + current_memories(t.drop_first())) =~= fact_views(
                kept@,
            ) + current_memories(t.drop_first()));
        }
        i = i + 1;
    }
    assert(all.skip(i as int) =~= Seq::<FactView>::empty());
    assert(fact_views(kept@) + Seq::<FactView>::empty() =~= fact_views(kept@));
    let ghost kv = fact_views(kept@);
    let mut res: Vec<MemoryFact> = Vec::new();
    let mut k: usize = 0;
    while k < kept.len()
        invariant
            0 <= k <= kept@.len(),
            kv == fact_views(kept@),
            newest_first(fact_views(res@)),
            fact_views(res@).to_multiset() == kv.take(k as int).to_multiset(),
        decreases kept@.len() - k,
    {
        let x = kept[k].duplicate();
        let mut p: usize = 0;
        while p < res.len() && res[p].updated_at >= x.updated_at
            invariant
                0 <= p <= res@.len(),
                forall|m: int| 0 <= m < p ==> #[trigger] res@[m].updated_at >= x.updated_at,
            decreases res@.len() - p,
        {
            p = p + 1;
        }
        let ghost before = fact_views(res@);
        let ghost xv = x@;
        proof {
            assert forall|m: int| p <= m < before.len() implies #[trigger] before[m].updated_at
                < xv.updated_at by {
                assert(before[p as int].updated_at < xv.updated_at);
                if m > p {
                    assert(before[p as int].updated_at >= before[m].updated_at);
                }
            }
        }
        res.insert(p, x);
        proof {
            let now = fact_views(res@);
            assert(now =~= before.insert(p as int, xv));
            assert(newest_first(now)) by {
                assert forall|a: int, b: int| 0 <= a < b < now.len() implies now[a].updated_at
                    >= now[b].updated_at by {
                    if a < p && b < p {
                        assert(now[a] == before[a] && now[b] == before[b]);
                    } else if a < p && b == p {
                        assert(now[a] == before[a]);
                    } else if a < p && b > p {
                        assert(now[a] == before[a] && now[b] == before[b - 1]);
                        assert(before[a].updated_at >= before[b - 1].updated_at);
                    } else if a == p {
                        assert(now[b] == before[b - 1]);
                    } else {
                        assert(now[a] == before[a - 1] && now[b] == before[b - 1]);
                    }
                }
            }
            assert(kv.take(k + 1) =~= kv.take(k as int).push(xv));
            assert(now.to_multiset() == before.to_multiset().insert(xv));
        }
        k = k + 1;
    }
    assert(kv.take(k as int) =~= kv);
    res
}

/// The id of the first memory with that id or content, if any.
pub open spec fn matching_id_of(fs: Seq<FactView>, target: Seq<char>) -> Option<Seq<char>>
    decreases fs.len(),
{
    if fs.len() == 0 {
        None
    } else if hit(fs[0], target, true) {
        Some(fs[0].id)
    } else {
        matching_id_of(fs.drop_first(), target)
    }
}

/// An update's existing memory: the id of the first memory whose id or
/// content is the target.
pub fn matching_id(memories: &Vec<MemoryFact>, target: &str) -> (res: Option<String>)
    ensures
        match res {
            Some(id) => matching_id_of(fact_views(memories@), target@) == Some(id@),
            None => matching_id_of(fact_views(memories@), target@) is None,
        },
{
    let ghost all = fact_views(memories@);
    let mut i: usize = 0;
    assert(all.skip(0) =~= all);
    while i < memories.len()
        invariant
            0 <= i <= memories@.len(),
            all == fact_views(memories@),
            matching_id_of(all, target@) == matching_id_of(all.skip(i as int), target@),
        decreases memories@.len() - i,
    {
        assert(all.skip(i as int)[0] == memories@[i as int]@);
        if str_eq(memories[i].id.as_str(), target) || str_eq(memories[i].content.as_str(), target) {
            return Some(memories[i].id.clone());
        }
        assert(all.skip(i as int).drop_first() =~= all.skip(i + 1));
        i = i + 1;
    }
    None
}

/// A memory's last record wins: after an active record with a non-empty id
/// is appended to a pet's log, it is that id's current memory, and the only
/// one with that id.
pub proof fn latest_record_wins(fs: Seq<FactView>, f: FactView)
    requires
        f.id.len() > 0,
        is_active(f),
    ensures
        current_memories(fs.push(f)).contains(f),
        forall|i: int|
            0 <= i < current_memories(fs.push(f)).len() && (#[trigger] current_memories(
                fs.push(f),
            )[i]).id == f.id ==> current_memories(fs.push(f))[i] == f,
    decreases fs.len(),
{
    let s = fs.push(f);
    if fs.len() == 0 {
        assert(s.drop_first() =~= Seq::<FactView>::empty());
        assert(current_memories(Seq::<FactView>::empty()) =~= Seq::<FactView>::empty());
        assert(current_memories(s.drop_first()) =~= Seq::<FactView>::empty());
        assert(s[0] == f);
        assert(current_memories(s) =~= seq![f]);
        assert(current_memories(s)[0] == f);
    } else {
        latest_record_wins(fs.drop_first(), f);
        assert(s.drop_first() =~= fs.drop_first().push(f));
        let r = current_memories(fs.drop_first().push(f));
        assert(s[0] == fs[0]);
        if fs[0].id == f.id {
            let k = s.drop_first().len() - 1;
            assert(s.drop_first()[k] == f);
            assert(current_memories(s) == r);
        } else if current_memories(s) != r {
            let c = current_memories(s);
            assert(c =~= seq![fs[0]] + r);
            let j = choose|j: int| 0 <= j < r.len() && r[j] == f;
            assert(c[j + 1] == f);
            assert forall|i: int| 0 <= i < c.len() && (#[trigger] c[i]).id == f.id implies c[i] == f by {
                if i > 0 {
                    assert(c[i] == r[i - 1]);
                }
            }
        }
    }
}

/// A deleted memory is gone: after a record that is not active is appended
/// for an id, no current memory has that id.
pub proof fn deleted_record_hides_memory(fs: Seq<FactView>, t: FactView)
    requires
        !is_active(t),
    ensures
        forall|i: int|
            0 <= i < current_memories(fs.push(t)).len() ==> (#[trigger] current_memories(
                fs.push(t),
            )[i]).id != t.id,
    decreases fs.len(),
{
    let s = fs.push(t);
    if fs.len() == 0 {
        assert(s.drop_first() =~= Seq::<FactView>::empty());
        assert(current_memories(Seq::<FactView>::empty()) =~= Seq::<FactView>::empty());
        assert(current_memories(s.drop_first()) =~= Seq::<FactView>::empty());
        assert(s[0] == t);
        assert(current_memories(s) =~= Seq::<FactView>::empty());
    } else {
        deleted_record_hides_memory(fs.drop_first(), t);
        assert(s.drop_first() =~= fs.drop_first().push(t));
        let r = current_memories(fs.drop_first().push(t));
        assert(s[0] == fs[0]);
        if fs[0].id == t.id {
            let k = s.drop_first().len() - 1;
            assert(s.drop_first()[k] == t);
            assert(current_memories(s) == r);
        } else if current_memories(s) != r {
            let c = current_memories(s);
            assert(c =~= seq![fs[0]] + r);
            assert forall|i: int| 0 <= i < c.len() implies (#[trigger] c[i]).id != t.id by {
                if i > 0 {
                    assert(c[i] == r[i - 1]);
                }
            }
        }
    }
}

} // verus!
