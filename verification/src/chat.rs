//! Chat turns: which pet is replying, what a user may send, the messages a
//! turn stores, and when a summary is refreshed.
use vstd::prelude::*;

use crate::keyed::{text_map, KeyedList};
use crate::message::{copy_from, same_message, ChatMessage};
use crate::prompt::{clean_reply, cleaned, history_for_prompt};
use crate::provider::ModelEndpointConfig;
use crate::settings::AiSettings;
use crate::text::{char_count, decimal, push_decimal, str_eq, trim, trim_str};

verus! {

/// The requests in flight: per pet, the request that is replying
/// (`active`) and the request whose task can be cancelled (`tasks`).
pub struct ChatRegistry {
    pub active: KeyedList<String>,
    pub tasks: KeyedList<String>,
}

impl ChatRegistry {
    pub open spec fn wf(&self) -> bool {
        self.active.wf() && self.tasks.wf()
    }

    /// The active request of each replying pet.
    pub open spec fn active_view(&self) -> Map<Seq<char>, Seq<char>> {
        text_map(self.active.map())
    }

    /// The cancellable task of each pet.
    pub open spec fn task_view(&self) -> Map<Seq<char>, Seq<char>> {
        text_map(self.tasks.map())
    }

    pub fn new() -> (r: Self)
        ensures
            r.wf(),
            r.active_view() == Map::<Seq<char>, Seq<char>>::empty(),
            r.task_view() == Map::<Seq<char>, Seq<char>>::empty(),
    {
        let r = ChatRegistry { active: KeyedList::new(), tasks: KeyedList::new() };
        assert(r.active_view() =~= Map::<Seq<char>, Seq<char>>::empty());
        assert(r.task_view() =~= Map::<Seq<char>, Seq<char>>::empty());
        r
    }

    /// Whether any pet is replying.
    pub fn any_active(&self) -> (b: bool)
        requires
            self.wf(),
        ensures
            b == (self.active_view().dom() != Set::<Seq<char>>::empty()),
    {
        let e = self.active.is_empty();
        assert(self.active_view().dom() =~= self.active.map().dom());
        !e
    }

    /// `send_chat_message`'s claim: a pet that is already replying refuses;
    /// otherwise the request becomes its active request and its task.
    pub fn begin(&mut self, pet_id: &str, request_id: &str) -> (res: Result<(), String>)
        requires
            old(self).wf(),
        ensures
            final(self).wf(),
            old(self).active_view().contains_key(pet_id@) ==> (res matches Err(e) && e@
                == "这只宠物正在回复，请先停止当前回复"@ && final(self).active_view() == old(self).active_view() && final(self).task_view() == old(self).task_view()),
            !old(self).active_view().contains_key(pet_id@) ==> (res is Ok && final(self).active_view() == old(self).active_view().insert(pet_id@, request_id@) && final(self).task_view() == old(self).task_view().insert(pet_id@, request_id@)),
    {
        if self.active.contains(pet_id) {
            assert(old(self).active.map().contains_key(pet_id@));
            return Err(String::from_str("这只宠物正在回复，请先停止当前回复"));
        }
        let ghost a0 = self.active.map();
        let ghost t0 = self.tasks.map();
        self.active.insert(String::from_str(pet_id), String::from_str(request_id));
        self.tasks.insert(String::from_str(pet_id), String::from_str(request_id));
        assert(self.active_view() =~= text_map(a0).insert(pet_id@, request_id@));
        assert(self.task_view() =~= text_map(t0).insert(pet_id@, request_id@));
        Ok(())
    }

    /// Takes the entry of `pet_id` out of `table` when it is `request_id`.
    fn release(table: &mut KeyedList<String>, pet_id: &str, request_id: &str)
        requires
            old(table).wf(),
        ensures
            final(table).wf(),
            text_map(final(table).map()) == if text_map(old(table).map()).contains_key(pet_id@)
                && text_map(old(table).map())[pet_id@] == request_id@ {
                text_map(old(table).map()).remove(pet_id@)
            } else {
                text_map(old(table).map())
            },
    {
        let ghost m0 = table.map();
        let matches = match table.get(pet_id) {
            Some(current) => str_eq(current.as_str(), request_id),
            None => false,
        };
        if matches {
            table.remove(pet_id);
            assert(text_map(table.map()) =~= text_map(m0).remove(pet_id@));
        }
    }

    /// The end of a chat task: its pet stops replying and its task is
    /// dropped, unless a newer request has taken their place.
    pub fn finish(&mut self, pet_id: &str, request_id: &str)
        requires
            old(self).wf(),
        ensures
            final(self).wf(),
            final(self).active_view() == if old(self).active_view().contains_key(pet_id@) && old(self).active_view()[pet_id@] == request_id@ {
                old(self).active_view().remove(pet_id@)
            } else {
                old(self).active_view()
            },
            final(self).task_view() == if old(self).task_view().contains_key(pet_id@) && old(self).task_view()[pet_id@] == request_id@ {
                old(self).task_view().remove(pet_id@)
            } else {
                old(self).task_view()
            },
    {
        Self::release(&mut self.active, pet_id, request_id);
        Self::release(&mut self.tasks, pet_id, request_id);
    }

    /// `cancel_chat_response`: the pet's task is dropped (its id returned so
    /// that the caller can abort it), and the pet stops replying when that
    /// task was its active request.
    pub fn cancel(&mut self, pet_id: &str) -> (res: Option<String>)
        requires
            old(self).wf(),
        ensures
            final(self).wf(),
            final(self).task_view() == old(self).task_view().remove(pet_id@),
            match res {
                Some(r) => old(self).task_view().contains_key(pet_id@) && old(self).task_view()[pet_id@] == r@ && final(self).active_view() == if old(self).active_view().contains_key(pet_id@) && old(self).active_view()[pet_id@] == r@ {
                    old(self).active_view().remove(pet_id@)
                } else {
                    old(self).active_view()
                },
                None => !old(self).task_view().contains_key(pet_id@) && final(self).active_view()
                    == old(self).active_view(),
            },
    {
        let ghost t0 = self.tasks.map();
        let task = self.tasks.remove(pet_id);
        assert(self.task_view() =~= text_map(t0).remove(pet_id@));
        match task {
            Some(r) => {
                Self::release(&mut self.active, pet_id, r.as_str());
                Some(r)
            },
            None => None,
        }
    }

    /// The heartbeat's claim of a pet: its marker becomes the pet's active
    /// request; says whether the pet was free.
    pub fn claim(&mut self, pet_id: &str, marker: &str) -> (was_free: bool)
        requires
            old(self).wf(),
        ensures
            final(self).wf(),
            was_free == !old(self).active_view().contains_key(pet_id@),
            final(self).active_view() == old(self).active_view().insert(pet_id@, marker@),
            final(self).task_view() == old(self).task_view(),
    {
        let ghost a0 = self.active.map();
        let was_free = self.active.insert(String::from_str(pet_id), String::from_str(marker));
        assert(self.active_view() =~= text_map(a0).insert(pet_id@, marker@));
        was_free
    }

    /// The heartbeat's release of a pet it claimed with `marker`.
    pub fn release_claim(&mut self, pet_id: &str, marker: &str)
        requires
            old(self).wf(),
        ensures
            final(self).wf(),
            final(self).active_view() == if old(self).active_view().contains_key(pet_id@) && old(self).active_view()[pet_id@] == marker@ {
                old(self).active_view().remove(pet_id@)
            } else {
                old(self).active_view()
            },
            final(self).task_view() == old(self).task_view(),
    {
        Self::release(&mut self.active, pet_id, marker);
    }
}

/// A finished request frees its pet: after `begin(p, r)` succeeded,
/// `finish(p, r)` leaves `p` neither replying nor with a task.
pub proof fn finish_after_begin_frees_pet(
    active: Map<Seq<char>, Seq<char>>,
    tasks: Map<Seq<char>, Seq<char>>,
    pet: Seq<char>,
    request: Seq<char>,
)
    requires
        !active.contains_key(pet),
    ensures
        ({
            let a1 = active.insert(pet, request);
            let t1 = tasks.insert(pet, request);
            let a2 = if a1.contains_key(pet) && a1[pet] == request {
                a1.remove(pet)
            } else {
                a1
            };
            let t2 = if t1.contains_key(pet) && t1[pet] == request {
                t1.remove(pet)
            } else {
                t1
            };
            &&& !a2.contains_key(pet)
            &&& !t2.contains_key(pet)
            &&& a2 == active.remove(pet)
        }),
{
    assert(active.insert(pet, request).remove(pet) =~= active.remove(pet));
}

/// A stale task does not free a pet that a newer request holds: finishing
/// request `old_r` leaves the newer `new_r` in place.
pub proof fn stale_finish_keeps_newer_request(
    active: Map<Seq<char>, Seq<char>>,
    pet: Seq<char>,
    old_r: Seq<char>,
    new_r: Seq<char>,
)
    requires
        active.contains_key(pet),
        active[pet] == new_r,
        old_r != new_r,
    ensures
        (if active.contains_key(pet) && active[pet] == old_r {
            active.remove(pet)
        } else {
            active
        }) == active,
{
}

/// After a pet's task is cancelled, the pet accepts a new request: when
/// `begin(p, r)` succeeded, `cancel(p)` frees `p` so that `begin(p, r2)`
/// succeeds.
pub proof fn cancel_frees_pet_for_next_request(
    active: Map<Seq<char>, Seq<char>>,
    tasks: Map<Seq<char>, Seq<char>>,
    pet: Seq<char>,
    request: Seq<char>,
)
    requires
        !active.contains_key(pet),
    ensures
        ({
            let a1 = active.insert(pet, request);
            let t1 = tasks.insert(pet, request);
            let cancelled = t1[pet];
            let a2 = if a1.contains_key(pet) && a1[pet] == cancelled {
                a1.remove(pet)
            } else {
                a1
            };
            !a2.contains_key(pet)
        }),
{
}

pub open spec fn chat_content_error() -> Seq<char> {
    "消息不能为空且不能超过 4000 字"@
}

/// `send_chat_message`'s check: the trimmed message, which must be
/// non-empty and at most 4000 characters.
pub fn validate_chat_content(content: &str) -> (res: Result<String, String>)
    ensures
        (trim(content@).len() > 0 && trim(content@).len() <= 4000) ==> (res matches Ok(t) && t@
            == trim(content@)),
        !(trim(content@).len() > 0 && trim(content@).len() <= 4000) ==> (res matches Err(e) && e@
            == chat_content_error()),
{
    let t = trim_str(content);
    let n = char_count(t.as_str());
    if n == 0 || n > 4000 {
        return Err(String::from_str("消息不能为空且不能超过 4000 字"));
    }
    Ok(t)
}

/// The model endpoint of a chat turn, or why there is none.
pub fn chat_endpoint(ai: &AiSettings) -> (res: Result<ModelEndpointConfig, String>)
    ensures
        !ai.enabled ==> (res matches Err(e) && e@ == "AI 对话未启用"@),
        ai.enabled && ai.chat_model is None ==> (res matches Err(e) && e@ == "尚未配置聊天模型"@),
        ai.enabled && ai.chat_model is Some ==> (res matches Ok(c) && c.provider
            == ai.chat_model->0.provider && c.base_url@ == ai.chat_model->0.base_url@ && c.model@
            == ai.chat_model->0.model@ && c.max_output_tokens == ai.chat_model->0.max_output_tokens
            && c.credential_ref.is_some() == ai.chat_model->0.credential_ref.is_some() && (
        c.credential_ref.is_some() ==> c.credential_ref->0@ == ai.chat_model->0.credential_ref->0@)),
{
    if !ai.enabled {
        return Err(String::from_str("AI 对话未启用"));
    }
    match &ai.chat_model {
        Some(c) => Ok(c.duplicate()),
        None => Err(String::from_str("尚未配置聊天模型")),
    }
}

/// `{prefix}-{now}`.
pub(crate) fn stamped_id(prefix: &str, now: u64) -> (res: String)
    ensures
        res@ == prefix@ + "-"@ + decimal(now as nat),
{
    let mut id = String::from_str(prefix);
    id.append("-");
    push_decimal(&mut id, now);
    id
}

/// The user's message of a chat turn at `now`.
pub fn user_message(content: &str, now: u64) -> (m: ChatMessage)
    ensures
        m.id@ == "message"@ + "-"@ + decimal(now as nat),
        m.role@ == "user"@,
        m.content@ == content@,
        m.timestamp == now,
        m.source@ == "chat"@,
        m.vision_summary is None,
{
    let id = stamped_id("message", now);
    ChatMessage::new(id.as_str(), "user", content, now, "chat")
}

/// The pet's reply of a chat turn: the cleaned text (at most 600), which
/// must not be empty.
pub fn assistant_reply(reply: &str, now: u64) -> (res: Result<ChatMessage, String>)
    ensures
        cleaned(reply@, 600).len() == 0 ==> (res matches Err(e) && e@ == "模型没有返回文字"@),
        cleaned(reply@, 600).len() > 0 ==> (res matches Ok(m) && m.id@ == "message"@ + "-"@
            + decimal(now as nat) && m.role@ == "assistant"@ && m.content@ == cleaned(reply@, 600)
            && m.timestamp == now && m.source@ == "chat"@ && m.vision_summary is None),
{
    let text = clean_reply(reply, 600);
    if char_count(text.as_str()) == 0 {
        return Err(String::from_str("模型没有返回文字"));
    }
    let id = stamped_id("message", now);
    Ok(ChatMessage::new(id.as_str(), "assistant", text.as_str(), now, "chat"))
}

/// A chat history longer than 40 messages gets its older part summarized.
pub fn needs_summary(message_count: usize) -> (b: bool)
    ensures
        b == (message_count > 40),
{
    message_count > 40
}

/// `refresh_summary`'s input: all but the 12 most recent messages, when
/// there is at least one such message.
pub fn summary_source(messages: &Vec<ChatMessage>) -> (res: Option<Vec<ChatMessage>>)
    ensures
        messages@.len() <= 12 ==> res is None,
        messages@.len() > 12 ==> (res matches Some(older) && older@.len() == messages@.len() - 12
            && forall|i: int|
            0 <= i < older@.len() ==> same_message(#[trigger] older@[i], messages@[i])),
{
    if messages.len() <= 12 {
        return None;
    }
    let older: usize = messages.len() - 12;
    let mut out: Vec<ChatMessage> = Vec::new();
    let mut i: usize = 0;
    while i < older
        invariant
            0 <= i <= older,
            older == messages@.len() - 12,
            out@.len() == i,
            forall|k: int| 0 <= k < i ==> same_message(#[trigger] out@[k], messages@[k]),
        decreases older - i,
    {
        out.push(messages[i].duplicate());
        i = i + 1;
    }
    Some(out)
}

/// The summary to save: the model's text cleaned to at most 4800, unless
/// that leaves nothing.
pub fn summary_to_save(raw: &str) -> (res: Option<String>)
    ensures
        cleaned(raw@, 4800).len() == 0 ==> res is None,
        cleaned(raw@, 4800).len() > 0 ==> (res matches Some(s) && s@ == cleaned(raw@, 4800)),
{
    let s = clean_reply(raw, 4800);
    if char_count(s.as_str()) == 0 {
        None
    } else {
        Some(s)
    }
}

/// `get_chat_history`: the 200 most recent messages, oldest first.
pub fn recent_history(messages: &Vec<ChatMessage>) -> (res: Vec<ChatMessage>)
    ensures
        ({
            let start = if messages@.len() > 200 {
                messages@.len() - 200
            } else {
                0
            };
            &&& res@.len() == messages@.len() - start
            &&& forall|i: int|
                0 <= i < res@.len() ==> same_message(#[trigger] res@[i], messages@[start + i])
        }),
{
    let start: usize = if messages.len() > 200 {
        messages.len() - 200
    } else {
        0
    };
    copy_from(messages, start)
}

/// The prompt of `test_ai_provider`.
pub fn provider_test_prompt(vision: bool) -> (p: &'static str)
    ensures
        vision ==> p@ == "请回复 OK，表示你可以处理图片输入。"@,
        !vision ==> p@ == "请只回复 OK。"@,
{
    if vision {
        "请回复 OK，表示你可以处理图片输入。"
    } else {
        "请只回复 OK。"
    }
}

/// The messages of `test_ai_provider`: for a vision test, one screenshot
/// message (id `__vision__`); otherwise none.
pub fn provider_test_messages(vision: bool, now: u64) -> (res: Vec<ChatMessage>)
    ensures
        !vision ==> res@.len() == 0,
        vision ==> res@.len() == 1 && res@[0].id@ == "__vision__"@ && res@[0].role@ == "user"@
            && res@[0].content@ == "测试图片"@ && res@[0].timestamp == now && res@[0].source@
            == "test"@ && res@[0].vision_summary is None,
{
    let mut messages: Vec<ChatMessage> = Vec::new();
    if vision {
        messages.push(ChatMessage::new("__vision__", "user", "测试图片", now, "test"));
    }
    messages
}

/// What `test_ai_provider` shows: the first 80 characters of the reply.
pub fn provider_test_reply(reply: &str) -> (res: String)
    ensures
        res@ == crate::text::take_chars(reply@, 80),
{
    crate::text::take_chars_str(reply, 80)
}

/// The instructions of the memory extractor.
pub fn memory_extractor_prompt() -> (p: &'static str)
    ensures
        p@ == "你是记忆提取器。只保留稳定、未来仍有用的用户资料或共同经历，不记录一次性闲聊。只返回 JSON：{\"facts\":[{\"action\":\"add|update|forget\",\"target\":\"要修改或遗忘的原记忆内容，可为空\",\"content\":\"新的记忆内容\",\"kind\":\"preference|profile|event\",\"scope\":\"shared|pet\",\"importance\":0.0,\"confidence\":0.0}]}。没有记忆就返回空数组。不要把普通寒暄写入记忆。"@,
{
    "你是记忆提取器。只保留稳定、未来仍有用的用户资料或共同经历，不记录一次性闲聊。只返回 JSON：{\"facts\":[{\"action\":\"add|update|forget\",\"target\":\"要修改或遗忘的原记忆内容，可为空\",\"content\":\"新的记忆内容\",\"kind\":\"preference|profile|event\",\"scope\":\"shared|pet\",\"importance\":0.0,\"confidence\":0.0}]}。没有记忆就返回空数组。不要把普通寒暄写入记忆。"
}

/// The instructions of the summarizer.
pub fn summarizer_prompt() -> (p: &'static str)
    ensures
        p@ == "你是桌面宠物的对话摘要器。把较早的聊天整理成一段简洁、客观、可供角色继续陪伴使用的中文摘要。保留用户明确表达的偏好、重要计划和共同经历，不编造信息，不写分析过程，不超过 1200 个中文字符。只返回摘要正文。"@,
{
    "你是桌面宠物的对话摘要器。把较早的聊天整理成一段简洁、客观、可供角色继续陪伴使用的中文摘要。保留用户明确表达的偏好、重要计划和共同经历，不编造信息，不写分析过程，不超过 1200 个中文字符。只返回摘要正文。"
}

/// The last `max(max_recent, 2)` of `messages`, as `history_for_prompt`
/// copies them.
pub open spec fn recent_window(messages: Seq<ChatMessage>, max_recent: usize, out: Seq<ChatMessage>) -> bool {
    let keep = if max_recent < 2 {
        2
    } else {
        max_recent as int
    };
    let start = if messages.len() > keep {
        messages.len() - keep
    } else {
        0
    };
    &&& out.len() == messages.len() - start
    &&& forall|i: int| 0 <= i < out.len() ==> same_message(#[trigger] out[i], messages[start + i])
}

/// What a chat turn does before the model is called.
pub struct TurnStart {
    /// The user's message, stored in the pet's log.
    pub user: ChatMessage,
    /// The messages sent to the model: the recent end of the log, the
    /// user's message included.
    pub history: Vec<ChatMessage>,
    /// Whether memories are read for the prompt.
    pub read_memories: bool,
}

/// What a chat turn does once the model has answered.
pub struct TurnEnd {
    /// The pet's reply, stored in the pet's log.
    pub assistant: ChatMessage,
    /// Whether memories are extracted from the conversation.
    pub extract_memories: bool,
    /// Whether the older messages are summarized.
    pub summarize: bool,
}

/// `turn_started(log, content, now, ai, log1, start)`: the user's message
/// of `content` at `now` is appended to `log`, giving `log1`, and the model
/// gets the recent window of `log1`; memories are read when they are on.
pub open spec fn turn_started(
    log: Seq<ChatMessage>,
    content: Seq<char>,
    now: u64,
    ai: AiSettings,
    log1: Seq<ChatMessage>,
    start: TurnStart,
) -> bool {
    &&& start.user.id@ == "message"@ + "-"@ + decimal(now as nat)
    &&& start.user.role@ == "user"@
    &&& start.user.content@ == content
    &&& start.user.timestamp == now
    &&& start.user.source@ == "chat"@
    &&& start.user.vision_summary is None
    &&& log1.len() == log.len() + 1
    &&& log1.take(log.len() as int) == log
    &&& same_message(log1.last(), start.user)
    &&& recent_window(log1, ai.max_recent_messages, start.history@)
    &&& start.read_memories == ai.memory_enabled
}

/// `turn_finished(log, reply, now, ai, log1, res)`: a reply whose cleaned
/// text is empty is refused and the log kept; otherwise the pet's message
/// is appended, memories are extracted when they are on, and a summary is
/// made once the log holds more than 40 messages.
pub open spec fn turn_finished(
    log: Seq<ChatMessage>,
    reply: Seq<char>,
    now: u64,
    ai: AiSettings,
    log1: Seq<ChatMessage>,
    res: Result<TurnEnd, String>,
) -> bool {
    if cleaned(reply, 600).len() == 0 {
        &&& res matches Err(e) && e@ == "模型没有返回文字"@
        &&& log1 == log
    } else {
        &&& res matches Ok(end) && {
            &&& end.assistant.id@ == "message"@ + "-"@ + decimal(now as nat)
            &&& end.assistant.role@ == "assistant"@
            &&& end.assistant.content@ == cleaned(reply, 600)
            &&& end.assistant.timestamp == now
            &&& end.assistant.source@ == "chat"@
            &&& end.assistant.vision_summary is None
            &&& same_message(log1.last(), end.assistant)
            &&& end.extract_memories == ai.memory_enabled
            &&& end.summarize == (log1.len() > 40)
        }
        &&& log1.len() == log.len() + 1
        &&& log1.take(log.len() as int) == log
    }
}

/// The first half of `run_chat_task`: the user's message joins the log,
/// and the turn says what the model is sent.
pub fn start_turn(log: &mut Vec<ChatMessage>, content: &str, now: u64, ai: &AiSettings) -> (start: TurnStart)
    ensures
        turn_started(old(log)@, content@, now, *ai, final(log)@, start),
{
    let user = user_message(content, now);
    let ghost before = log@;
    log.push(user.duplicate());
    assert(log@.take(before.len() as int) =~= before);
    let history = history_for_prompt(log, ai.max_recent_messages);
    TurnStart { user, history, read_memories: ai.memory_enabled }
}

/// The second half of `run_chat_task`: the model's reply becomes the pet's
/// message in the log, and the turn says what follows.
pub fn finish_turn(log: &mut Vec<ChatMessage>, reply: &str, now: u64, ai: &AiSettings) -> (res: Result<TurnEnd, String>)
    ensures
        turn_finished(old(log)@, reply@, now, *ai, final(log)@, res),
{
    let assistant = match assistant_reply(reply, now) {
        Ok(m) => m,
        Err(e) => return Err(e),
    };
    let ghost before = log@;
    log.push(assistant.duplicate());
    assert(log@.take(before.len() as int) =~= before);
    let summarize = needs_summary(log.len());
    Ok(TurnEnd { assistant, extract_memories: ai.memory_enabled, summarize })
}

/// A chat turn stores exactly the user's message and then the pet's
/// reply: from a log `L`, a turn that is answered leaves `L` followed by
/// the user's message and the reply, and the model was sent the recent
/// window of `L` followed by the user's message.
pub proof fn chat_turn_appends_user_then_reply(
    log: Seq<ChatMessage>,
    content: Seq<char>,
    t1: u64,
    ai: AiSettings,
    log1: Seq<ChatMessage>,
    start: TurnStart,
    reply: Seq<char>,
    t2: u64,
    log2: Seq<ChatMessage>,
    end: TurnEnd,
)
    requires
        turn_started(log, content, t1, ai, log1, start),
        turn_finished(log1, reply, t2, ai, log2, Ok(end)),
    ensures
        log2.len() == log.len() + 2,
        log2.take(log.len() as int) == log,
        same_message(log2[log.len() as int], start.user),
        same_message(log2[log.len() as int + 1], end.assistant),
        start.user.content@ == content && start.user.role@ == "user"@,
        end.assistant.content@ == cleaned(reply, 600) && end.assistant.role@ == "assistant"@,
        recent_window(log1, ai.max_recent_messages, start.history@),
        log1.take(log.len() as int) == log && same_message(log1.last(), start.user),
{
    assert(log2.take(log1.len() as int) == log1);
    assert(log2.take(log.len() as int) =~= log1.take(log.len() as int));
    assert(log2[log.len() as int] == log1[log.len() as int]);
}

} // verus!
