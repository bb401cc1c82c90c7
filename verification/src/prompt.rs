//! The system prompt of a pet: app safety rules first, then the character
//! card, world-book entries, shared profile, memories and summary.
use vstd::prelude::*;

use crate::memory::{fact_views, FactView, MemoryFact};
use crate::message::{copy_from, same_message, ChatMessage};
use crate::text::{
    char_count, concat, find, find_str, strip_both, strip_chars, strip_prefixes,
    strip_prefixes_str, strip_suffixes, strip_suffixes_str, take_chars, take_chars_str, trim,
    trim_str, utf8_len, byte_len, CharSet,
};

verus! {

/// One world-book entry of a character card.
pub struct LorebookEntry {
    pub keys: Vec<String>,
    pub content: String,
    pub enabled: bool,
    pub constant: bool,
}

pub struct EntryView {
    pub keys: Seq<Seq<char>>,
    pub content: Seq<char>,
    pub enabled: bool,
    pub constant: bool,
}

impl View for LorebookEntry {
    type V = EntryView;

    open spec fn view(&self) -> EntryView {
        EntryView {
            keys: self.keys@.map_values(|k: String| k@),
            content: self.content@,
            enabled: self.enabled,
            constant: self.constant,
        }
    }
}

/// The fields of a Character Card V2 that reach the model (and the
/// creator's notes, which never do).
pub struct CharacterCard {
    pub name: String,
    pub description: String,
    pub personality: String,
    pub scenario: String,
    pub first_mes: String,
    pub mes_example: String,
    pub creator_notes: String,
    pub system_prompt: String,
    pub post_history_instructions: String,
    pub character_book: Vec<LorebookEntry>,
}

pub struct CardView {
    pub name: Seq<char>,
    pub description: Seq<char>,
    pub personality: Seq<char>,
    pub scenario: Seq<char>,
    pub first_mes: Seq<char>,
    pub mes_example: Seq<char>,
    pub creator_notes: Seq<char>,
    pub system_prompt: Seq<char>,
    pub post_history_instructions: Seq<char>,
    pub character_book: Seq<EntryView>,
}

impl View for CharacterCard {
    type V = CardView;

    open spec fn view(&self) -> CardView {
        CardView {
            name: self.name@,
            description: self.description@,
            personality: self.personality@,
            scenario: self.scenario@,
            first_mes: self.first_mes@,
            mes_example: self.mes_example@,
            creator_notes: self.creator_notes@,
            system_prompt: self.system_prompt@,
            post_history_instructions: self.post_history_instructions@,
            character_book: self.character_book@.map_values(|e: LorebookEntry| e@),
        }
    }
}

impl Default for CharacterCard {
    fn default() -> (c: Self)
        ensures
            c@.name.len() == 0,
            c@.description.len() == 0,
            c@.personality.len() == 0,
            c@.scenario.len() == 0,
            c@.first_mes.len() == 0,
            c@.mes_example.len() == 0,
            c@.creator_notes.len() == 0,
            c@.system_prompt.len() == 0,
            c@.post_history_instructions.len() == 0,
            c@.character_book.len() == 0,
    {
        CharacterCard {
            name: String::new(),
            description: String::new(),
            personality: String::new(),
            scenario: String::new(),
            first_mes: String::new(),
            mes_example: String::new(),
            creator_notes: String::new(),
            system_prompt: String::new(),
            post_history_instructions: String::new(),
            character_book: Vec::new(),
        }
    }
}

/// An entry applies when it is enabled and either constant or one of its
/// non-empty keys occurs in the text.
pub open spec fn entry_applies(e: EntryView, text: Seq<char>) -> bool {
    e.enabled && (e.constant || exists|k: int|
        0 <= k < e.keys.len() && e.keys[k].len() > 0 && #[trigger] find(text, e.keys[k]) is Some)
}

/// The applying entries' contents, each followed by a newline, in card order.
pub open spec fn lore_text(entries: Seq<EntryView>, text: Seq<char>) -> Seq<char>
    decreases entries.len(),
{
    if entries.len() == 0 {
        Seq::empty()
    } else {
        let rest = lore_text(entries.drop_last(), text);
        if entry_applies(entries.last(), text) {
            rest + entries.last().content + "\n"@
        } else {
            rest
        }
    }
}

fn entry_applies_exec(e: &LorebookEntry, text: &str) -> (b: bool)
    ensures
        b == entry_applies(e@, text@),
{
    if !e.enabled {
        return false;
    }
    if e.constant {
        return true;
    }
    let ghost kv = e@.keys;
    let mut k: usize = 0;
    while k < e.keys.len()
        invariant
            0 <= k <= e.keys@.len(),
            kv == e@.keys,
            e.enabled,
            !e.constant,
            forall|m: int|
                0 <= m < k ==> !(kv[m].len() > 0 && #[trigger] find(text@, kv[m]) is Some),
        decreases e.keys@.len() - k,
    {
        assert(kv[k as int] == e.keys@[k as int]@);
        if char_count(e.keys[k].as_str()) > 0 && find_str(text, e.keys[k].as_str()).is_some() {
            assert(kv[k as int].len() > 0 && find(text@, kv[k as int]) is Some);
            assert(entry_applies(e@, text@));
            return true;
        }
        k = k + 1;
    }
    false
}

impl CharacterCard {
    /// The world-book text for the given conversation text.
    pub fn relevant_lorebook(&self, text: &str) -> (res: String)
        ensures
            res@ == lore_text(self@.character_book, text@),
    {
        let ghost ev = self@.character_book;
        let mut out = String::new();
        let mut i: usize = 0;
        assert(ev.take(0) =~= Seq::<EntryView>::empty());
        while i < self.character_book.len()
            invariant
                0 <= i <= self.character_book@.len(),
                ev == self@.character_book,
                out@ == lore_text(ev.take(i as int), text@),
            decreases self.character_book@.len() - i,
        {
            let e = &self.character_book[i];
            assert(ev.take(i + 1).drop_last() =~= ev.take(i as int));
            assert(ev.take(i + 1).last() == e@);
            if entry_applies_exec(e, text) {
                out.append(e.content.as_str());
                out.append("\n");
            }
            i = i + 1;
        }
        assert(ev.take(i as int) =~= ev);
        out
    }
}

pub open spec fn safety_rules() -> Seq<char> {
    "你是 SakiPet 桌面宠物。你只能进行聊天和陪伴，不执行文件、Shell、系统控制或网络工具。\n\n"@
}

/// `\n{label}：\n{value}\n` when the value is not empty.
pub open spec fn section(label: Seq<char>, value: Seq<char>) -> Seq<char> {
    if value.len() == 0 {
        Seq::empty()
    } else {
        "\n"@ + label + "：\n"@ + value + "\n"@
    }
}

/// One `- {content}` line per memory, for the first eight memories.
pub open spec fn memory_lines(ms: Seq<FactView>) -> Seq<char>
    decreases ms.len(),
{
    if ms.len() == 0 {
        Seq::empty()
    } else if ms.len() > 8 {
        memory_lines(ms.take(8))
    } else {
        memory_lines(ms.drop_last()) + "- "@ + ms.last().content + "\n"@
    }
}

pub open spec fn system_part(card: CardView) -> Seq<char> {
    if card.system_prompt.len() == 0 {
        Seq::empty()
    } else {
        card.system_prompt + "\n"@
    }
}

pub open spec fn card_sections(card: CardView) -> Seq<char> {
    section("角色描述"@, card.description) + section("性格"@, card.personality) + section(
        "场景"@,
        card.scenario,
    ) + section("对话示例"@, card.mes_example) + section("初始问候"@, card.first_mes)
}

pub open spec fn lore_part(lore: Seq<char>) -> Seq<char> {
    if lore.len() == 0 {
        Seq::empty()
    } else {
        "\n相关世界书：\n"@ + lore
    }
}

pub open spec fn profile_part(profile: Seq<char>) -> Seq<char> {
    if profile.len() == 0 {
        Seq::empty()
    } else {
        "\n共享用户资料：\n"@ + profile + "\n"@
    }
}

pub open spec fn memory_part(memories: Seq<FactView>) -> Seq<char> {
    if memories.len() == 0 {
        Seq::empty()
    } else {
        "\n关于你们共同经历的记忆：\n"@ + memory_lines(memories)
    }
}

pub open spec fn summary_part(summary: Seq<char>) -> Seq<char> {
    if summary.len() == 0 {
        Seq::empty()
    } else {
        "\n较早对话摘要：\n"@ + summary + "\n"@
    }
}

pub open spec fn reply_rules(pet_id: Seq<char>) -> Seq<char> {
    "\n当前宠物 ID："@ + pet_id + "\n回复要求：使用自然简短的中文，保持角色语气，不要随机描述表情或动作。"@
}

pub open spec fn instructions_part(card: CardView) -> Seq<char> {
    if card.post_history_instructions.len() == 0 {
        Seq::empty()
    } else {
        "\n\n历史后指令：\n"@ + card.post_history_instructions
    }
}

/// The system prompt of `prompt_for`.
pub open spec fn prompt_text(
    card: CardView,
    pet_id: Seq<char>,
    profile: Seq<char>,
    memories: Seq<FactView>,
    summary: Seq<char>,
    query: Seq<char>,
) -> Seq<char> {
    safety_rules() + system_part(card) + card_sections(card) + lore_part(
        lore_text(card.character_book, query + "\n"@ + summary),
    ) + profile_part(profile) + memory_part(memories) + summary_part(summary) + reply_rules(pet_id)
        + instructions_part(card)
}

fn push_section(out: &mut String, label: &str, value: &str)
    ensures
        final(out)@ == old(out)@ + section(label@, value@),
{
    if char_count(value) > 0 {
        out.append("\n");
        out.append(label);
        out.append("：\n");
        out.append(value);
        out.append("\n");
    } else {
        assert(old(out)@ + Seq::<char>::empty() =~= old(out)@);
    }
}

fn push_memory_lines(out: &mut String, memories: &Vec<MemoryFact>)
    ensures
        final(out)@ == old(out)@ + memory_lines(fact_views(memories@)),
{
    let ghost mv = fact_views(memories@);
    let limit: usize = if memories.len() > 8 {
        8
    } else {
        memories.len()
    };
    let ghost start = out@;
    let mut i: usize = 0;
    assert(mv.take(0) =~= Seq::<FactView>::empty());
    while i < limit
        invariant
            0 <= i <= limit <= memories@.len(),
            limit <= 8,
            mv == fact_views(memories@),
            out@ == start + memory_lines(mv.take(i as int)),
        decreases limit - i,
    {
        assert(mv.take(i + 1).drop_last() =~= mv.take(i as int));
        assert(mv.take(i + 1).last() == memories@[i as int]@);
        out.append("- ");
        out.append(memories[i].content.as_str());
        out.append("\n");
        i = i + 1;
    }
    proof {
        if memories@.len() > 8 {
            assert(mv.take(8).len() == 8);
        } else {
            assert(mv.take(i as int) =~= mv);
        }
    }
}

fn push_system(out: &mut String, card: &CharacterCard)
    ensures
        final(out)@ == old(out)@ + system_part(card@),
{
    if char_count(card.system_prompt.as_str()) > 0 {
        out.append(card.system_prompt.as_str());
        out.append("\n");
    } else {
        assert(old(out)@ + Seq::<char>::empty() =~= old(out)@);
    }
}

fn push_card_sections(out: &mut String, card: &CharacterCard)
    ensures
        final(out)@ == old(out)@ + card_sections(card@),
{
    let ghost start = out@;
    push_section(out, "角色描述", card.description.as_str());
    push_section(out, "性格", card.personality.as_str());
    push_section(out, "场景", card.scenario.as_str());
    push_section(out, "对话示例", card.mes_example.as_str());
    push_section(out, "初始问候", card.first_mes.as_str());
    assert(out@ =~= start + card_sections(card@));
}

fn push_lore(out: &mut String, card: &CharacterCard, query: &str, summary: &str)
    ensures
        final(out)@ == old(out)@ + lore_part(lore_text(card@.character_book, query@ + "\n"@ + summary@)),
{
    let mut lore_query = String::from_str(query);
    lore_query.append("\n");
    lore_query.append(summary);
    let lore = card.relevant_lorebook(lore_query.as_str());
    if char_count(lore.as_str()) > 0 {
        out.append("\n相关世界书：\n");
        out.append(lore.as_str());
        assert(final(out)@ =~= old(out)@ + lore_part(lore@)) by {
            assert(lore_query@ =~= query@ + "\n"@ + summary@);
        }
    } else {
        assert(lore_query@ =~= query@ + "\n"@ + summary@);
        assert(old(out)@ + Seq::<char>::empty() =~= old(out)@);
    }
}

fn push_profile(out: &mut String, profile: &str)
    ensures
        final(out)@ == old(out)@ + profile_part(profile@),
{
    if char_count(profile) > 0 {
        out.append("\n共享用户资料：\n");
        out.append(profile);
        out.append("\n");
    } else {
        assert(old(out)@ + Seq::<char>::empty() =~= old(out)@);
    }
}

fn push_memories(out: &mut String, memories: &Vec<MemoryFact>)
    ensures
        final(out)@ == old(out)@ + memory_part(fact_views(memories@)),
{
    if memories.len() > 0 {
        out.append("\n关于你们共同经历的记忆：\n");
        push_memory_lines(out, memories);
    } else {
        assert(old(out)@ + Seq::<char>::empty() =~= old(out)@);
    }
}

fn push_summary(out: &mut String, summary: &str)
    ensures
        final(out)@ == old(out)@ + summary_part(summary@),
{
    if char_count(summary) > 0 {
        out.append("\n较早对话摘要：\n");
        out.append(summary);
        out.append("\n");
    } else {
        assert(old(out)@ + Seq::<char>::empty() =~= old(out)@);
    }
}

fn push_tail(out: &mut String, pet_id: &str, card: &CharacterCard)
    ensures
        final(out)@ == old(out)@ + reply_rules(pet_id@) + instructions_part(card@),
{
    out.append("\n当前宠物 ID：");
    out.append(pet_id);
    out.append("\n回复要求：使用自然简短的中文，保持角色语气，不要随机描述表情或动作。");
    if char_count(card.post_history_instructions.as_str()) > 0 {
        out.append("\n\n历史后指令：\n");
        out.append(card.post_history_instructions.as_str());
    }
}

/// `prompt_for`: the system prompt of a pet for one reply.
pub fn prompt_for(
    card: &CharacterCard,
    pet_id: &str,
    profile: &str,
    memories: &Vec<MemoryFact>,
    summary: &str,
    query: &str,
) -> (res: String)
    ensures
        res@ == prompt_text(card@, pet_id@, profile@, fact_views(memories@), summary@, query@),
{
    let mut prompt = String::from_str(
        "你是 SakiPet 桌面宠物。你只能进行聊天和陪伴，不执行文件、Shell、系统控制或网络工具。\n\n",
    );
    push_system(&mut prompt, card);
    push_card_sections(&mut prompt, card);
    push_lore(&mut prompt, card, query, summary);
    push_profile(&mut prompt, profile);
    push_memories(&mut prompt, memories);
    push_summary(&mut prompt, summary);
    push_tail(&mut prompt, pet_id, card);
    prompt
}

/// The app's safety rules come first in every prompt.
pub proof fn prompt_starts_with_safety_rules(
    card: CardView,
    pet_id: Seq<char>,
    profile: Seq<char>,
    memories: Seq<FactView>,
    summary: Seq<char>,
    query: Seq<char>,
)
    ensures
        safety_rules().is_prefix_of(prompt_text(card, pet_id, profile, memories, summary, query)),
{
    let p = prompt_text(card, pet_id, profile, memories, summary, query);
    assert(p.subrange(0, safety_rules().len() as int) =~= safety_rules());
}

/// The creator's notes never reach the model: two cards that differ only in
/// their notes give the same prompt.
pub proof fn prompt_ignores_creator_notes(
    card: CardView,
    notes: Seq<char>,
    pet_id: Seq<char>,
    profile: Seq<char>,
    memories: Seq<FactView>,
    summary: Seq<char>,
    query: Seq<char>,
)
    ensures
        prompt_text(CardView { creator_notes: notes, ..card }, pet_id, profile, memories, summary, query)
            == prompt_text(card, pet_id, profile, memories, summary, query),
{
}

/// `y` occurs in `x + y` right after `x`.
proof fn lemma_occurs_at_end(x: Seq<char>, y: Seq<char>)
    ensures
        crate::text::occurs_at(x + y, y, x.len() as int),
{
    assert((x + y).subrange(x.len() as int, (x.len() + y.len()) as int) =~= y);
}

/// What occurs in `a` still occurs there in `a + b`.
proof fn lemma_occurs_extend(a: Seq<char>, b: Seq<char>, y: Seq<char>, i: int)
    requires
        crate::text::occurs_at(a, y, i),
    ensures
        crate::text::occurs_at(a + b, y, i),
{
    assert((a + b).subrange(i, i + y.len()) =~= a.subrange(i, i + y.len()));
}

/// What occurs in `b` occurs in `a + b`, shifted by `a`'s length.
proof fn lemma_occurs_shift(a: Seq<char>, b: Seq<char>, y: Seq<char>, i: int)
    requires
        crate::text::occurs_at(b, y, i),
    ensures
        crate::text::occurs_at(a + b, y, a.len() + i),
{
    assert((a + b).subrange(a.len() + i, a.len() + i + y.len()) =~= b.subrange(i, i + y.len()));
}

/// `"\n{label}：\n{value}\n"` occurs in `s` after its first `from`
/// characters.
pub open spec fn labelled_after(s: Seq<char>, from: int, label: Seq<char>, value: Seq<char>) -> bool {
    exists|i: int|
        from <= i && #[trigger] crate::text::occurs_at(s, "\n"@ + label + "：\n"@ + value + "\n"@, i)
}

/// A non-empty section of `s1 .. s5` occurs in `head + (s1 + .. + s5) + rest`
/// after `head`.
proof fn lemma_section_in(
    head: Seq<char>,
    s1: Seq<char>,
    s2: Seq<char>,
    s3: Seq<char>,
    s4: Seq<char>,
    s5: Seq<char>,
    k: int,
) -> (i: int)
    requires
        1 <= k <= 5,
    ensures
        head.len() <= i,
        crate::text::occurs_at(
            head + (s1 + s2 + s3 + s4 + s5),
            if k == 1 {
                s1
            } else if k == 2 {
                s2
            } else if k == 3 {
                s3
            } else if k == 4 {
                s4
            } else {
                s5
            },
            i,
        ),
{
    let cards = s1 + s2 + s3 + s4 + s5;
    let j: int = if k == 1 {
        lemma_occurs_at_end(Seq::<char>::empty(), s1);
        assert(Seq::<char>::empty() + s1 =~= s1);
        lemma_occurs_extend(s1, s2, s1, 0);
        lemma_occurs_extend(s1 + s2, s3, s1, 0);
        lemma_occurs_extend(s1 + s2 + s3, s4, s1, 0);
        lemma_occurs_extend(s1 + s2 + s3 + s4, s5, s1, 0);
        0
    } else if k == 2 {
        lemma_occurs_at_end(s1, s2);
        lemma_occurs_extend(s1 + s2, s3, s2, s1.len() as int);
        lemma_occurs_extend(s1 + s2 + s3, s4, s2, s1.len() as int);
        lemma_occurs_extend(s1 + s2 + s3 + s4, s5, s2, s1.len() as int);
        s1.len() as int
    } else if k == 3 {
        lemma_occurs_at_end(s1 + s2, s3);
        lemma_occurs_extend(s1 + s2 + s3, s4, s3, (s1 + s2).len() as int);
        lemma_occurs_extend(s1 + s2 + s3 + s4, s5, s3, (s1 + s2).len() as int);
        (s1 + s2).len() as int
    } else if k == 4 {
        lemma_occurs_at_end(s1 + s2 + s3, s4);
        lemma_occurs_extend(s1 + s2 + s3 + s4, s5, s4, (s1 + s2 + s3).len() as int);
        (s1 + s2 + s3).len() as int
    } else {
        lemma_occurs_at_end(s1 + s2 + s3 + s4, s5);
        (s1 + s2 + s3 + s4).len() as int
    };
    let y = if k == 1 {
        s1
    } else if k == 2 {
        s2
    } else if k == 3 {
        s3
    } else if k == 4 {
        s4
    } else {
        s5
    };
    assert(crate::text::occurs_at(cards, y, j));
    lemma_occurs_shift(head, cards, y, j);
    head.len() + j
}

/// Every part of the character card that has text reaches the model: after
/// the app's safety rules, the prompt holds `"\n{label}：\n{value}\n"` for
/// each non-empty description (角色描述), personality (性格), scenario
/// (场景), dialogue example (对话示例) and first greeting (初始问候).
pub proof fn prompt_holds_every_card_section(
    card: CardView,
    pet_id: Seq<char>,
    profile: Seq<char>,
    memories: Seq<FactView>,
    summary: Seq<char>,
    query: Seq<char>,
)
    ensures
        ({
            let p = prompt_text(card, pet_id, profile, memories, summary, query);
            let from = safety_rules().len() as int;
            &&& card.description.len() > 0 ==> labelled_after(p, from, "角色描述"@, card.description)
            &&& card.personality.len() > 0 ==> labelled_after(p, from, "性格"@, card.personality)
            &&& card.scenario.len() > 0 ==> labelled_after(p, from, "场景"@, card.scenario)
            &&& card.mes_example.len() > 0 ==> labelled_after(p, from, "对话示例"@, card.mes_example)
            &&& card.first_mes.len() > 0 ==> labelled_after(p, from, "初始问候"@, card.first_mes)
        }),
{
    let p = prompt_text(card, pet_id, profile, memories, summary, query);
    let head = safety_rules() + system_part(card);
    let s1 = section("角色描述"@, card.description);
    let s2 = section("性格"@, card.personality);
    let s3 = section("场景"@, card.scenario);
    let s4 = section("对话示例"@, card.mes_example);
    let s5 = section("初始问候"@, card.first_mes);
    let l1 = lore_part(lore_text(card.character_book, query + "\n"@ + summary));
    let l2 = profile_part(profile);
    let l3 = memory_part(memories);
    let l4 = summary_part(summary);
    let l5 = reply_rules(pet_id);
    let l6 = instructions_part(card);
    assert(p == head + (s1 + s2 + s3 + s4 + s5) + l1 + l2 + l3 + l4 + l5 + l6);
    assert(head.len() >= safety_rules().len());
    let i1 = lemma_section_in_prompt(head, s1, s2, s3, s4, s5, l1, l2, l3, l4, l5, l6, 1);
    let i2 = lemma_section_in_prompt(head, s1, s2, s3, s4, s5, l1, l2, l3, l4, l5, l6, 2);
    let i3 = lemma_section_in_prompt(head, s1, s2, s3, s4, s5, l1, l2, l3, l4, l5, l6, 3);
    let i4 = lemma_section_in_prompt(head, s1, s2, s3, s4, s5, l1, l2, l3, l4, l5, l6, 4);
    let i5 = lemma_section_in_prompt(head, s1, s2, s3, s4, s5, l1, l2, l3, l4, l5, l6, 5);
}

/// `piece` occurs in `s` after its first `from` characters.
pub open spec fn holds_after(s: Seq<char>, from: int, piece: Seq<char>) -> bool {
    exists|i: int| from <= i && #[trigger] crate::text::occurs_at(s, piece, i)
}

/// Each of the (at most eight) memories has its line in `memory_lines`.
proof fn lemma_memory_line(ms: Seq<FactView>, k: int) -> (i: int)
    requires
        ms.len() <= 8,
        0 <= k < ms.len(),
    ensures
        crate::text::occurs_at(memory_lines(ms), "- "@ + ms[k].content + "\n"@, i),
    decreases ms.len(),
{
    let init = ms.drop_last();
    let line = "- "@ + ms.last().content + "\n"@;
    assert(memory_lines(ms) =~= memory_lines(init) + line);
    if k == ms.len() - 1 {
        lemma_occurs_at_end(memory_lines(init), line);
        memory_lines(init).len() as int
    } else {
        assert(init[k] == ms[k]);
        let i = lemma_memory_line(init, k);
        lemma_occurs_extend(memory_lines(init), line, "- "@ + ms[k].content + "\n"@, i);
        i
    }
}

/// What the pet knows beyond its card reaches the model too: after the
/// app's safety rules the prompt names the pet (`"\n当前宠物 ID：{pet_id}"`),
/// holds a non-empty shared profile as `"\n共享用户资料：\n{profile}\n"`, a
/// non-empty summary as `"\n较早对话摘要：\n{summary}\n"`, and each of the
/// first eight memories as a line `"- {content}\n"`.
pub proof fn prompt_holds_profile_memories_and_summary(
    card: CardView,
    pet_id: Seq<char>,
    profile: Seq<char>,
    memories: Seq<FactView>,
    summary: Seq<char>,
    query: Seq<char>,
)
    ensures
        ({
            let p = prompt_text(card, pet_id, profile, memories, summary, query);
            let from = safety_rules().len() as int;
            &&& holds_after(p, from, "\n当前宠物 ID："@ + pet_id)
            &&& profile.len() > 0 ==> holds_after(p, from, "\n共享用户资料：\n"@ + profile + "\n"@)
            &&& summary.len() > 0 ==> holds_after(p, from, "\n较早对话摘要：\n"@ + summary + "\n"@)
            &&& forall|k: int|
                0 <= k < memories.len() && k < 8 ==> holds_after(
                    p,
                    from,
                    "- "@ + (#[trigger] memories[k]).content + "\n"@,
                )
        }),
{
    let p = prompt_text(card, pet_id, profile, memories, summary, query);
    let c = safety_rules() + system_part(card) + card_sections(card);
    let l1 = lore_part(lore_text(card.character_book, query + "\n"@ + summary));
    let l2 = profile_part(profile);
    let l3 = memory_part(memories);
    let l4 = summary_part(summary);
    let l5 = reply_rules(pet_id);
    let l6 = instructions_part(card);
    assert(p == c + l1 + l2 + l3 + l4 + l5 + l6);
    assert(c.len() >= safety_rules().len());
    // The pet's id.
    let rid = "\n当前宠物 ID："@ + pet_id;
    let rest = "\n回复要求：使用自然简短的中文，保持角色语气，不要随机描述表情或动作。"@;
    assert(l5 == rid + rest);
    lemma_occurs_at_end(c + l1 + l2 + l3 + l4, rid);
    assert(c + l1 + l2 + l3 + l4 + l5 =~= (c + l1 + l2 + l3 + l4 + rid) + rest);
    lemma_occurs_extend(c + l1 + l2 + l3 + l4 + rid, rest, rid, (c + l1 + l2 + l3 + l4).len() as int);
    lemma_occurs_extend(c + l1 + l2 + l3 + l4 + l5, l6, rid, (c + l1 + l2 + l3 + l4).len() as int);
    // The profile.
    if profile.len() > 0 {
        let at = (c + l1).len() as int;
        lemma_occurs_at_end(c + l1, l2);
        lemma_occurs_extend(c + l1 + l2, l3, l2, at);
        lemma_occurs_extend(c + l1 + l2 + l3, l4, l2, at);
        lemma_occurs_extend(c + l1 + l2 + l3 + l4, l5, l2, at);
        lemma_occurs_extend(c + l1 + l2 + l3 + l4 + l5, l6, l2, at);
    }
    // The summary.
    if summary.len() > 0 {
        let at = (c + l1 + l2 + l3).len() as int;
        lemma_occurs_at_end(c + l1 + l2 + l3, l4);
        lemma_occurs_extend(c + l1 + l2 + l3 + l4, l5, l4, at);
        lemma_occurs_extend(c + l1 + l2 + l3 + l4 + l5, l6, l4, at);
    }
    // The memories.
    assert forall|k: int| 0 <= k < memories.len() && k < 8 implies holds_after(
        p,
        safety_rules().len() as int,
        "- "@ + (#[trigger] memories[k]).content + "\n"@,
    ) by {
        let ms = if memories.len() > 8 {
            memories.take(8)
        } else {
            memories
        };
        assert(memory_lines(memories) == memory_lines(ms));
        assert(ms[k] == memories[k]);
        let line = "- "@ + memories[k].content + "\n"@;
        let j = lemma_memory_line(ms, k);
        let head = "\n关于你们共同经历的记忆：\n"@;
        assert(l3 == head + memory_lines(ms));
        lemma_occurs_shift(head, memory_lines(ms), line, j);
        let base = (c + l1 + l2).len() as int;
        lemma_occurs_shift(c + l1 + l2, l3, line, head.len() + j);
        assert(c + l1 + l2 + l3 == (c + l1 + l2) + l3);
        lemma_occurs_extend(c + l1 + l2 + l3, l4, line, base + head.len() + j);
        lemma_occurs_extend(c + l1 + l2 + l3 + l4, l5, line, base + head.len() + j);
        lemma_occurs_extend(c + l1 + l2 + l3 + l4 + l5, l6, line, base + head.len() + j);
        assert(crate::text::occurs_at(p, line, base + head.len() + j));
        assert(safety_rules().len() <= base + head.len() + j);
    }
}

/// The card's own system prompt comes right after the app's safety rules
/// (followed by a line break), and its post-history instructions close the
/// prompt under `"\n\n历史后指令：\n"`.
pub proof fn prompt_places_system_prompt_and_closing_instructions(
    card: CardView,
    pet_id: Seq<char>,
    profile: Seq<char>,
    memories: Seq<FactView>,
    summary: Seq<char>,
    query: Seq<char>,
)
    ensures
        card.system_prompt.len() > 0 ==> (safety_rules() + card.system_prompt + "\n"@).is_prefix_of(
            prompt_text(card, pet_id, profile, memories, summary, query),
        ),
        card.post_history_instructions.len() > 0 ==> ("\n\n历史后指令：\n"@
            + card.post_history_instructions).is_suffix_of(
            prompt_text(card, pet_id, profile, memories, summary, query),
        ),
{
    let p = prompt_text(card, pet_id, profile, memories, summary, query);
    let head = safety_rules() + system_part(card);
    let mid = card_sections(card) + lore_part(lore_text(card.character_book, query + "\n"@ + summary))
        + profile_part(profile) + memory_part(memories) + summary_part(summary) + reply_rules(pet_id);
    let last = instructions_part(card);
    assert(p =~= head + mid + last);
    if card.system_prompt.len() > 0 {
        assert(head =~= safety_rules() + card.system_prompt + "\n"@);
        assert(p.subrange(0, head.len() as int) =~= head);
    }
    if card.post_history_instructions.len() > 0 {
        assert(p.subrange(p.len() - last.len(), p.len() as int) =~= last);
    }
}

/// A section of `s1 .. s5` occurs in the whole prompt after `head`.
proof fn lemma_section_in_prompt(
    head: Seq<char>,
    s1: Seq<char>,
    s2: Seq<char>,
    s3: Seq<char>,
    s4: Seq<char>,
    s5: Seq<char>,
    l1: Seq<char>,
    l2: Seq<char>,
    l3: Seq<char>,
    l4: Seq<char>,
    l5: Seq<char>,
    l6: Seq<char>,
    k: int,
) -> (i: int)
    requires
        1 <= k <= 5,
    ensures
        head.len() <= i,
        crate::text::occurs_at(
            head + (s1 + s2 + s3 + s4 + s5) + l1 + l2 + l3 + l4 + l5 + l6,
            if k == 1 {
                s1
            } else if k == 2 {
                s2
            } else if k == 3 {
                s3
            } else if k == 4 {
                s4
            } else {
                s5
            },
            i,
        ),
{
    let c = head + (s1 + s2 + s3 + s4 + s5);
    let y = if k == 1 {
        s1
    } else if k == 2 {
        s2
    } else if k == 3 {
        s3
    } else if k == 4 {
        s4
    } else {
        s5
    };
    let i = lemma_section_in(head, s1, s2, s3, s4, s5, k);
    lemma_occurs_extend(c, l1, y, i);
    lemma_occurs_extend(c + l1, l2, y, i);
    lemma_occurs_extend(c + l1 + l2, l3, y, i);
    lemma_occurs_extend(c + l1 + l2 + l3, l4, y, i);
    lemma_occurs_extend(c + l1 + l2 + l3 + l4, l5, y, i);
    lemma_occurs_extend(c + l1 + l2 + l3 + l4 + l5, l6, y, i);
    i
}

/// `history_for_prompt`: the last `max(max_recent, 2)` messages, copied.
pub fn history_for_prompt(messages: &Vec<ChatMessage>, max_recent: usize) -> (res: Vec<ChatMessage>)
    ensures
        ({
            let keep = if max_recent < 2 {
                2
            } else {
                max_recent as int
            };
            let start = if messages@.len() > keep {
                messages@.len() - keep
            } else {
                0
            };
            &&& res@.len() == messages@.len() - start
            &&& forall|i: int|
                0 <= i < res@.len() ==> same_message(#[trigger] res@[i], messages@[start + i])
        }),
{
    let keep: usize = if max_recent < 2 {
        2
    } else {
        max_recent
    };
    let start: usize = if messages.len() > keep {
        messages.len() - keep
    } else {
        0
    };
    copy_from(messages, start)
}

/// `clean_reply`: trimmed, backticks stripped from both ends and trimmed
/// again; cut to `max_chars` characters when its UTF-8 length exceeds
/// `max_chars` bytes.
pub open spec fn cleaned(text: Seq<char>, max_chars: int) -> Seq<char> {
    let t = trim(strip_both(trim(text), CharSet::Only('`')));
    if utf8_len(t) > max_chars {
        take_chars(t, max_chars)
    } else {
        t
    }
}

pub fn clean_reply(text: &str, max_chars: usize) -> (res: String)
    ensures
        res@ == cleaned(text@, max_chars as int),
{
    let a = trim_str(text);
    let b = strip_chars(a.as_str(), CharSet::Only('`'));
    let c = trim_str(b.as_str());
    if byte_len(c.as_str()) > max_chars {
        take_chars_str(c.as_str(), max_chars)
    } else {
        c
    }
}

/// `extract_json` before parsing: the text trimmed, its leading "```json"
/// and "```" fences and trailing "```" fences removed, trimmed again.
pub open spec fn json_candidate_text(text: Seq<char>) -> Seq<char> {
    trim(
        strip_suffixes(strip_prefixes(strip_prefixes(trim(text), "```json"@), "```"@), "```"@),
    )
}

pub fn json_candidate(text: &str) -> (res: String)
    ensures
        res@ == json_candidate_text(text@),
{
    let a = trim_str(text);
    let b = strip_prefixes_str(a.as_str(), "```json");
    let c = strip_prefixes_str(b.as_str(), "```");
    let d = strip_suffixes_str(c.as_str(), "```");
    trim_str(d.as_str())
}

} // verus!
