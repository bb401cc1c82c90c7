//! Heartbeats: when a pet may speak on its own, what it is told, what of its
//! answer is kept, and which pet's turn it is.
use vstd::prelude::*;

use crate::chat::{stamped_id, ChatRegistry};
use crate::keyed::KeyedList;
use crate::message::ChatMessage;
use crate::prompt::{clean_reply, cleaned};
use crate::settings::{has_model, heartbeat_bounds, random_heartbeat_delay, settings_have_chat, AiSettings};
use crate::stream::string_views;
use crate::text::{ascii_fold, char_count, chars_of, decimal, fold_char};

verus! {

/// Whether a heartbeat may run for a pet: chat is configured, heartbeats
/// are on, and the pet is neither paused nor in quiet mode.
pub fn heartbeat_allowed(ai: &AiSettings, paused: bool, quiet_mode: bool) -> (b: bool)
    ensures
        b == (ai.enabled && has_model(ai.chat_model) && ai.heartbeat_enabled && !paused
            && !quiet_mode),
{
    settings_have_chat(ai) && ai.heartbeat_enabled && !paused && !quiet_mode
}

/// The user spoke less than five minutes ago: the last message of the
/// history is that recent.
pub fn recently_talked(last_timestamp: Option<u64>, now: u64) -> (b: bool)
    ensures
        b == (last_timestamp matches Some(t) && now.saturating_sub(t) < 300000),
{
    match last_timestamp {
        Some(t) => now.saturating_sub(t) < 300000,
        None => false,
    }
}

/// A desktop look is due at most once an hour.
pub fn vision_due(last_vision_ms: u64, now: u64) -> (b: bool)
    ensures
        b == (now.saturating_sub(last_vision_ms) >= 3600000),
{
    now.saturating_sub(last_vision_ms) >= 3600000
}

/// Whether this heartbeat looks at the desktop first: desktop vision is on
/// with a named vision model, no chat window is open, the hourly look is due,
/// and the chance roll (`roll_hit`) came up.
pub fn should_look(
    ai: &AiSettings,
    chat_window_open: bool,
    last_vision_ms: u64,
    now: u64,
    roll_hit: bool,
) -> (b: bool)
    ensures
        b == (ai.desktop_vision_enabled && has_model(ai.vision_model) && !chat_window_open
            && now.saturating_sub(last_vision_ms) >= 3600000 && roll_hit),
{
    let named = crate::settings::model_named(&ai.vision_model);
    ai.desktop_vision_enabled && named && !chat_window_open && vision_due(last_vision_ms, now)
        && roll_hit
}

/// When the desktop was last looked at, in milliseconds.
pub struct VisionStamp {
    pub last_ms: u64,
}

impl VisionStamp {
    /// No look yet.
    pub fn new() -> (s: Self)
        ensures
            s.last_ms == 0,
    {
        VisionStamp { last_ms: 0 }
    }

    /// `run_heartbeat`'s look: whether this heartbeat looks at the desktop
    /// (as `should_look` decides, against the last look), and, when it
    /// does, the hour marked at `now` before anything is captured, so that
    /// a failed capture does not bring the next look nearer.
    pub fn look(&mut self, ai: &AiSettings, chat_window_open: bool, now: u64, roll_hit: bool) -> (b: bool)
        ensures
            b == (ai.desktop_vision_enabled && has_model(ai.vision_model) && !chat_window_open
                && now.saturating_sub(old(self).last_ms) >= 3600000 && roll_hit),
            stamp_step(old(self).last_ms, now, b, final(self).last_ms, 3600000),
    {
        let b = should_look(ai, chat_window_open, self.last_ms, now, roll_hit);
        if b {
            self.last_ms = now;
        }
        b
    }
}

/// One step of a stamp kept for "at most once per `gap`": a step that
/// fires comes `gap` or more after the stamp and moves it to its own time;
/// one that does not leaves it.
pub open spec fn stamp_step(before: u64, now: u64, fired: bool, after: u64, gap: int) -> bool {
    if fired {
        now >= before + gap && after == now
    } else {
        after == before
    }
}

/// A run of such steps: `stamps[k]` before step `k`, which happens at
/// `times[k]` and fires or not (`fired[k]`).
pub open spec fn stamp_run(stamps: Seq<u64>, times: Seq<u64>, fired: Seq<bool>, gap: int) -> bool {
    &&& stamps.len() == fired.len() + 1
    &&& times.len() == fired.len()
    &&& forall|k: int|
        0 <= k < fired.len() ==> stamp_step(stamps[k], times[k], #[trigger] fired[k], stamps[k + 1], gap)
}

/// After a step that fired at `times[i]`, the stamp stays at that time or
/// later.
proof fn lemma_stamp_after(stamps: Seq<u64>, times: Seq<u64>, fired: Seq<bool>, gap: int, i: int, k: int)
    requires
        stamp_run(stamps, times, fired, gap),
        gap >= 0,
        0 <= i < k <= fired.len(),
        fired[i],
    ensures
        stamps[k] >= times[i],
    decreases k - i,
{
    let prev = k - 1;
    assert(stamp_step(stamps[prev], times[prev], fired[prev], stamps[prev + 1], gap));
    assert(prev + 1 == k);
    if k > i + 1 {
        lemma_stamp_after(stamps, times, fired, gap, i, prev);
    }
}

/// Steps that fire are `gap` apart or more, whatever steps that did not
/// fire came between.
pub proof fn fired_steps_are_spaced(stamps: Seq<u64>, times: Seq<u64>, fired: Seq<bool>, gap: int, i: int, j: int)
    requires
        stamp_run(stamps, times, fired, gap),
        gap >= 0,
        0 <= i < j < fired.len(),
        fired[i],
        fired[j],
    ensures
        times[j] >= times[i] + gap,
{
    lemma_stamp_after(stamps, times, fired, gap, i, j);
    assert(fired[j]);
}

/// Desktop looks are an hour apart or more over any run of heartbeats,
/// looking or not: each heartbeat's `look` is a step of the stamp.
pub proof fn desktop_looks_are_an_hour_apart(stamps: Seq<u64>, times: Seq<u64>, looked: Seq<bool>, i: int, j: int)
    requires
        stamp_run(stamps, times, looked, 3600000),
        0 <= i < j < looked.len(),
        looked[i],
        looked[j],
    ensures
        times[j] >= times[i] + 3600000,
{
    fired_steps_are_spaced(stamps, times, looked, 3600000, i, j);
}

pub open spec fn heartbeat_note() -> Seq<char> {
    "\n\n这是一次安静的 heartbeat。只有在确实有自然、和当前关系有关的话可说时才回复；否则只返回 NO_REPLY。回复最多 80 个中文字符，不要提及你是模型。"@
}

/// The heartbeat prompt: the pet's prompt followed by the heartbeat note.
pub fn heartbeat_prompt(base: &str) -> (res: String)
    ensures
        res@ == base@ + heartbeat_note(),
{
    let mut p = String::from_str(base);
    p.append("\n\n这是一次安静的 heartbeat。只有在确实有自然、和当前关系有关的话可说时才回复；否则只返回 NO_REPLY。回复最多 80 个中文字符，不要提及你是模型。");
    p
}

pub open spec fn vision_note_head() -> Seq<char> {
    "\n\n当前桌面观察（仅作为上下文，不要复述敏感信息）：\n"@
}

/// Appends the desktop observation to a heartbeat prompt.
pub fn add_vision_note(prompt: &mut String, summary: &str)
    ensures
        final(prompt)@ == old(prompt)@ + vision_note_head() + summary@,
{
    prompt.append("\n\n当前桌面观察（仅作为上下文，不要复述敏感信息）：\n");
    prompt.append(summary);
}

/// The system prompt of the desktop observer.
pub fn vision_system_prompt() -> (p: &'static str)
    ensures
        p@ == "你是一个严格的桌面视觉观察器。只描述看得见的非敏感事实，不进行推断，不输出角色台词。"@,
{
    "你是一个严格的桌面视觉观察器。只描述看得见的非敏感事实，不进行推断，不输出角色台词。"
}

/// The one message sent with the screenshot.
pub fn vision_request(now: u64) -> (m: ChatMessage)
    ensures
        m.id@ == "__vision__"@,
        m.role@ == "user"@,
        m.content@
            == "请观察这张桌面截图，只返回事实性的中文摘要；不要复述密码、令牌、私人联系方式或其他敏感文本。"@,
        m.timestamp == now,
        m.source@ == "vision"@,
        m.vision_summary is None,
{
    ChatMessage::new(
        "__vision__",
        "user",
        "请观察这张桌面截图，只返回事实性的中文摘要；不要复述密码、令牌、私人联系方式或其他敏感文本。",
        now,
        "vision",
    )
}

/// The observer's answer as kept: cleaned to at most 600, when anything is
/// left.
pub fn vision_summary(raw: &str) -> (res: Option<String>)
    ensures
        cleaned(raw@, 600).len() == 0 ==> res is None,
        cleaned(raw@, 600).len() > 0 ==> (res matches Some(s) && s@ == cleaned(raw@, 600)),
{
    let s = clean_reply(raw, 600);
    if char_count(s.as_str()) == 0 {
        None
    } else {
        Some(s)
    }
}

pub open spec fn no_reply_text() -> Seq<char> {
    seq!['N', 'O', '_', 'R', 'E', 'P', 'L', 'Y']
}

/// `s` equals `NO_REPLY` up to ASCII case.
pub open spec fn is_no_reply_text(s: Seq<char>) -> bool {
    s.len() == 8 && forall|i: int|
        0 <= i < 8 ==> ascii_fold(#[trigger] s[i] as u32) == ascii_fold(no_reply_text()[i] as u32)
}

/// Whether a reply is the model's `NO_REPLY`, compared ignoring ASCII case.
pub fn is_no_reply(s: &str) -> (b: bool)
    ensures
        b == is_no_reply_text(s@),
{
    let cs = chars_of(s);
    let expected: Vec<char> = vec!['N', 'O', '_', 'R', 'E', 'P', 'L', 'Y'];
    assert(expected@ =~= no_reply_text());
    if cs.len() != 8 {
        return false;
    }
    let mut i: usize = 0;
    while i < 8
        invariant
            cs@ == s@,
            cs@.len() == 8,
            expected@ == no_reply_text(),
            0 <= i <= 8,
            forall|j: int|
                0 <= j < i ==> ascii_fold(#[trigger] cs@[j] as u32) == ascii_fold(
                    no_reply_text()[j] as u32,
                ),
        decreases 8 - i,
    {
        if fold_char(cs[i]) != fold_char(expected[i]) {
            return false;
        }
        i = i + 1;
    }
    true
}

/// The heartbeat's answer as stored: cleaned to at most 80, and nothing when
/// that is empty or `NO_REPLY`. The message carries the desktop observation
/// the pet was given, if any.
pub fn heartbeat_reply(raw: &str, now: u64, observation: Option<String>) -> (res: Option<
    ChatMessage,
>)
    ensures
        (cleaned(raw@, 80).len() == 0 || is_no_reply_text(cleaned(raw@, 80))) ==> res is None,
        !(cleaned(raw@, 80).len() == 0 || is_no_reply_text(cleaned(raw@, 80))) ==> (res matches Some(
            m,
        ) && m.id@ == "heartbeat"@ + "-"@ + decimal(now as nat) && m.role@ == "assistant"@
            && m.content@ == cleaned(raw@, 80) && m.timestamp == now && m.source@ == "heartbeat"@
            && m.vision_summary == observation),
{
    let text = clean_reply(raw, 80);
    if char_count(text.as_str()) == 0 || is_no_reply(text.as_str()) {
        return None;
    }
    let id = stamped_id("heartbeat", now);
    let mut m = ChatMessage::new(id.as_str(), "assistant", text.as_str(), now, "heartbeat");
    m.vision_summary = observation;
    Some(m)
}

/// The marker under which the scheduler holds a pet while it speaks.
pub fn heartbeat_marker(now: u64) -> (res: String)
    ensures
        res@ == "heartbeat"@ + "-"@ + decimal(now as nat),
{
    stamped_id("heartbeat", now)
}

/// `min(x, u64::MAX)`.
pub open spec fn capped(x: int) -> int {
    if x > u64::MAX {
        u64::MAX as int
    } else {
        x
    }
}

/// A due time drawn `lo..=hi` minutes after `now`.
pub open spec fn in_window(v: u64, now: u64, lo: u32, hi: u32) -> bool {
    capped(now + lo * 60000) <= v <= capped(now + hi * 60000)
}

/// The due times after the candidates were tracked: exactly the candidates
/// have one; a pet that had one keeps it, a new one is drawn.
pub open spec fn tracked_times(
    before: Map<Seq<char>, u64>,
    candidates: Seq<Seq<char>>,
    now: u64,
    lo: u32,
    hi: u32,
    after: Map<Seq<char>, u64>,
) -> bool {
    &&& after.dom() == candidates.to_set()
    &&& forall|k: Seq<char>|
        #![trigger after[k]]
        after.contains_key(k) ==> if before.contains_key(k) {
            after[k] == before[k]
        } else {
            in_window(after[k], now, lo, hi)
        }
}

pub open spec fn due(m: Map<Seq<char>, u64>, k: Seq<char>, now: u64) -> bool {
    m.contains_key(k) && m[k] <= now
}

/// The first candidate at or after `i` whose time has come.
pub open spec fn first_due_from(c: Seq<Seq<char>>, m: Map<Seq<char>, u64>, now: u64, i: int) -> Option<
    int,
>
    decreases c.len() - i,
{
    if i < 0 || i >= c.len() {
        None
    } else if due(m, c[i], now) {
        Some(i)
    } else {
        first_due_from(c, m, now, i + 1)
    }
}

/// Ten minutes have not passed since the last heartbeat.
pub open spec fn throttled(now: u64, last: u64) -> bool {
    now.saturating_sub(last) < 600000
}

/// The pet whose heartbeat runs now, if any: none while throttled or while
/// a pet is replying; else the first due candidate.
pub open spec fn pick(
    c: Seq<Seq<char>>,
    m: Map<Seq<char>, u64>,
    now: u64,
    last: u64,
    any_active: bool,
) -> Option<Seq<char>> {
    if throttled(now, last) || any_active {
        None
    } else {
        match first_due_from(c, m, now, 0) {
            Some(i) => Some(c[i]),
            None => None,
        }
    }
}

/// When each shown pet may next speak, and when a heartbeat last ran.
/// What one `tick` does, from the scheduler `before` to `after`, answering
/// `res`: nothing when chat or heartbeats are off; otherwise the
/// candidates' due times are tracked (`mid`) and, when `pick` chooses a
/// pet, the pass is recorded at `now` and that pet alone gets a new due
/// time in the window.
pub open spec fn tick_outcome(
    before: HeartbeatScheduler,
    candidates: Seq<Seq<char>>,
    now: u64,
    settings: AiSettings,
    any_active: bool,
    res: Option<Seq<char>>,
    after: HeartbeatScheduler,
) -> bool {
    if !(settings.enabled && has_model(settings.chat_model) && settings.heartbeat_enabled) {
        &&& res is None
        &&& after.due_view() == before.due_view()
        &&& after.last_heartbeat_ms == before.last_heartbeat_ms
    } else {
        exists|mid: Map<Seq<char>, u64>|
            {
                &&& tracked_times(
                    before.due_view(),
                    candidates,
                    now,
                    heartbeat_bounds(settings).0,
                    heartbeat_bounds(settings).1,
                    mid,
                )
                &&& match res {
                    Some(p) => {
                        &&& pick(candidates, mid, now, before.last_heartbeat_ms, any_active) == Some(p)
                        &&& after.last_heartbeat_ms == now
                        &&& after.due_view().dom() == mid.dom()
                        &&& forall|k: Seq<char>|
                            k != p && mid.contains_key(k) ==> after.due_view()[k] == mid[k]
                        &&& in_window(
                            after.due_view()[p],
                            now,
                            heartbeat_bounds(settings).0,
                            heartbeat_bounds(settings).1,
                        )
                    },
                    None => {
                        &&& pick(candidates, mid, now, before.last_heartbeat_ms, any_active) is None
                        &&& after.due_view() == mid
                        &&& after.last_heartbeat_ms == before.last_heartbeat_ms
                    },
                }
            }
    }
}

pub struct HeartbeatScheduler {
    pub next: KeyedList<u64>,
    pub last_heartbeat_ms: u64,
}

impl HeartbeatScheduler {
    pub open spec fn wf(&self) -> bool {
        self.next.wf()
    }

    pub open spec fn due_view(&self) -> Map<Seq<char>, u64> {
        self.next.map()
    }

    pub fn new() -> (s: Self)
        ensures
            s.wf(),
            s.due_view() == Map::<Seq<char>, u64>::empty(),
            s.last_heartbeat_ms == 0,
    {
        HeartbeatScheduler { next: KeyedList::new(), last_heartbeat_ms: 0 }
    }

    /// Forgets pets that are no longer candidates and draws a due time for
    /// each new one.
    pub fn track(&mut self, candidates: &Vec<String>, now: u64, settings: &AiSettings)
        requires
            old(self).wf(),
        ensures
            final(self).wf(),
            final(self).last_heartbeat_ms == old(self).last_heartbeat_ms,
            tracked_times(
                old(self).due_view(),
                string_views(candidates@),
                now,
                heartbeat_bounds(*settings).0,
                heartbeat_bounds(*settings).1,
                final(self).due_view(),
            ),
    {
        let ghost c = string_views(candidates@);
        let ghost m0 = self.next.map();
        let ghost lo = heartbeat_bounds(*settings).0;
        let ghost hi = heartbeat_bounds(*settings).1;
        let ghost last = self.last_heartbeat_ms;
        self.next.retain_keys(candidates);
        let mut i: usize = 0;
        while i < candidates.len()
            invariant
                self.next.wf(),
                self.last_heartbeat_ms == last,
                c == string_views(candidates@),
                lo == heartbeat_bounds(*settings).0,
                hi == heartbeat_bounds(*settings).1,
                0 <= i <= candidates@.len(),
                forall|k: Seq<char>|
                    #![trigger self.next.map().contains_key(k)]
                    self.next.map().contains_key(k) <==> ((m0.contains_key(k) && c.contains(k))
                        || exists|j: int| 0 <= j < i && c[j] == k),
                forall|k: Seq<char>|
                    #![trigger self.next.map()[k]]
                    self.next.map().contains_key(k) ==> if m0.contains_key(k) {
                        self.next.map()[k] == m0[k]
                    } else {
                        in_window(self.next.map()[k], now, lo, hi)
                    },
            decreases candidates@.len() - i,
        {
            let key = &candidates[i];
            assert(c[i as int] == key@);
            if !self.next.contains(key.as_str()) {
                let secs = random_heartbeat_delay(settings);
                assert(secs * 1000 <= u64::MAX) by (nonlinear_arith)
                    requires
                        secs <= hi as int * 60,
                        hi <= u32::MAX,
                ;
                let at = now.saturating_add(secs * 1000);
                assert(in_window(at, now, lo, hi)) by (nonlinear_arith)
                    requires
                        lo as int * 60 <= secs <= hi as int * 60,
                        at == capped(now + secs * 1000),
                ;
                self.next.insert(String::from_str(key.as_str()), at);
            }
            proof {
                assert forall|k: Seq<char>|
                    #![trigger self.next.map().contains_key(k)]
                    self.next.map().contains_key(k) <==> ((m0.contains_key(k) && c.contains(k))
                        || exists|j: int| 0 <= j < i + 1 && c[j] == k) by {
                    if k == c[i as int] {
                        assert(0 <= i < i + 1 && c[i as int] == k);
                    }
                    if exists|j: int| 0 <= j < i && c[j] == k {
                        let j = choose|j: int| 0 <= j < i && c[j] == k;
                        assert(0 <= j < i + 1 && c[j] == k);
                    }
                    if exists|j: int| 0 <= j < i + 1 && c[j] == k {
                        let j = choose|j: int| 0 <= j < i + 1 && c[j] == k;
                        if j < i {
                            assert(0 <= j < i && c[j] == k);
                        }
                    }
                }
            }
            i = i + 1;
        }
        proof {
            let m1 = self.next.map();
            assert forall|k: Seq<char>| m1.dom().contains(k) <==> c.to_set().contains(k) by {
                if c.contains(k) {
                    let j = choose|j: int| 0 <= j < c.len() && c[j] == k;
                    assert(m1.contains_key(k));
                }
                if exists|j: int| 0 <= j < c.len() && c[j] == k {
                    let j = choose|j: int| 0 <= j < c.len() && c[j] == k;
                    assert(c.contains(k));
                }
            }
            assert(m1.dom() =~= c.to_set());
        }
    }

    /// The pet whose heartbeat runs now (see `pick`); changes nothing.
    pub fn due_pet(&self, candidates: &Vec<String>, now: u64, any_active: bool) -> (res: Option<
        String,
    >)
        requires
            self.wf(),
        ensures
            match res {
                Some(p) => pick(
                    string_views(candidates@),
                    self.due_view(),
                    now,
                    self.last_heartbeat_ms,
                    any_active,
                ) == Some(p@),
                None => pick(
                    string_views(candidates@),
                    self.due_view(),
                    now,
                    self.last_heartbeat_ms,
                    any_active,
                ) is None,
            },
    {
        let ghost c = string_views(candidates@);
        let ghost m = self.next.map();
        if now.saturating_sub(self.last_heartbeat_ms) < 600000 || any_active {
            return None;
        }
        let mut i: usize = 0;
        while i < candidates.len()
            invariant
                self.wf(),
                c == string_views(candidates@),
                m == self.next.map(),
                !throttled(now, self.last_heartbeat_ms),
                !any_active,
                0 <= i <= candidates@.len(),
                first_due_from(c, m, now, 0) == first_due_from(c, m, now, i as int),
            decreases candidates@.len() - i,
        {
            let key = &candidates[i];
            assert(c[i as int] == key@);
            let hit = match self.next.get(key.as_str()) {
                Some(at) => *at <= now,
                None => false,
            };
            if hit {
                assert(due(m, c[i as int], now));
                assert(first_due_from(c, m, now, i as int) == Some(i as int));
                let found = String::from_str(key.as_str());
                assert(found@ == c[i as int]);
                return Some(found);
            }
            i = i + 1;
        }
        None
    }

    /// A heartbeat runs for `pet`: it becomes the last heartbeat, and the pet
    /// gets a new due time.
    pub fn reschedule(&mut self, pet: &str, now: u64, settings: &AiSettings)
        requires
            old(self).wf(),
        ensures
            final(self).wf(),
            final(self).last_heartbeat_ms == now,
            final(self).due_view().dom() == old(self).due_view().dom().insert(pet@),
            forall|k: Seq<char>|
                k != pet@ && old(self).due_view().contains_key(k) ==> final(self).due_view()[k]
                    == old(self).due_view()[k],
            in_window(
                final(self).due_view()[pet@],
                now,
                heartbeat_bounds(*settings).0,
                heartbeat_bounds(*settings).1,
            ),
    {
        let ghost lo = heartbeat_bounds(*settings).0;
        let ghost hi = heartbeat_bounds(*settings).1;
        self.last_heartbeat_ms = now;
        let secs = random_heartbeat_delay(settings);
        assert(secs * 1000 <= u64::MAX) by (nonlinear_arith)
            requires
                secs <= hi as int * 60,
                hi <= u32::MAX,
        ;
        let at = now.saturating_add(secs * 1000);
        assert(in_window(at, now, lo, hi)) by (nonlinear_arith)
            requires
                lo as int * 60 <= secs <= hi as int * 60,
                at == capped(now + secs * 1000),
        ;
        let ghost m0 = self.next.map();
        self.next.insert(String::from_str(pet), at);
        assert(self.next.map().dom() =~= m0.dom().insert(pet@));
    }

    /// One pass of the scheduler: nothing when chat or heartbeats are off;
    /// otherwise tracks the candidates, and when a pet is picked, reschedules
    /// it and returns it.
    pub fn tick(
        &mut self,
        candidates: &Vec<String>,
        now: u64,
        settings: &AiSettings,
        any_active: bool,
    ) -> (res: Option<String>)
        requires
            old(self).wf(),
        ensures
            final(self).wf(),
            tick_outcome(
                *old(self),
                string_views(candidates@),
                now,
                *settings,
                any_active,
                match res {
                    Some(p) => Some(p@),
                    None => None,
                },
                *final(self),
            ),
    {
        if !(settings_have_chat(settings) && settings.heartbeat_enabled) {
            return None;
        }
        self.track(candidates, now, settings);
        let ghost mid = self.next.map();
        let picked = self.due_pet(candidates, now, any_active);
        match picked {
            Some(p) => {
                proof {
                    lemma_first_due_is_due(string_views(candidates@), mid, now, 0);
                }
                self.reschedule(p.as_str(), now, settings);
                assert(self.next.map().dom() =~= mid.dom());
                Some(p)
            },
            None => None,
        }
    }
}

/// What `first_due_from` finds is a due candidate at or after `i`.
pub proof fn lemma_first_due_is_due(c: Seq<Seq<char>>, m: Map<Seq<char>, u64>, now: u64, i: int)
    ensures
        first_due_from(c, m, now, i) matches Some(j) ==> i <= j < c.len() && due(m, c[j], now),
    decreases c.len() - i,
{
    if 0 <= i < c.len() && !due(m, c[i], now) {
        lemma_first_due_is_due(c, m, now, i + 1);
    }
}

/// Heartbeats are at least ten minutes apart: once one ran at `last`, no
/// pet is picked before ten minutes have passed, whatever is due.
pub proof fn heartbeats_are_ten_minutes_apart(
    c: Seq<Seq<char>>,
    m: Map<Seq<char>, u64>,
    last: u64,
    now: u64,
    any_active: bool,
)
    requires
        now < last + 600000,
    ensures
        pick(c, m, now, last, any_active) is None,
{
}

/// Over the scheduler's life, heartbeats run at least ten minutes apart:
/// when one `tick` picks a pet at `t1`, a following `tick` that picks a pet
/// (at `t2`, after any number of ticks that picked none) comes ten minutes
/// later or more. A tick that picks none leaves the last heartbeat's time
/// as it was.
pub proof fn ticks_run_heartbeats_ten_minutes_apart(
    s0: HeartbeatScheduler,
    c1: Seq<Seq<char>>,
    t1: u64,
    settings1: AiSettings,
    active1: bool,
    p1: Option<Seq<char>>,
    s1: HeartbeatScheduler,
    c2: Seq<Seq<char>>,
    t2: u64,
    settings2: AiSettings,
    active2: bool,
    p2: Option<Seq<char>>,
    s2: HeartbeatScheduler,
)
    requires
        tick_outcome(s0, c1, t1, settings1, active1, p1, s1),
        tick_outcome(s1, c2, t2, settings2, active2, p2, s2),
    ensures
        p1 is Some ==> s1.last_heartbeat_ms == t1,
        p1 is None ==> s1.last_heartbeat_ms == s0.last_heartbeat_ms,
        p2 is Some ==> t2 >= s1.last_heartbeat_ms + 600000 && s2.last_heartbeat_ms == t2,
        p1 is Some && p2 is Some ==> t2 >= t1 + 600000,
{
}

/// A tick starts a heartbeat only when it may: no pet is replying, chat and
/// heartbeats are on, and the pet is one of the candidates, due by the
/// times the tick tracked.
pub proof fn tick_picks_only_a_free_due_candidate(
    before: HeartbeatScheduler,
    c: Seq<Seq<char>>,
    now: u64,
    settings: AiSettings,
    any_active: bool,
    p: Seq<char>,
    after: HeartbeatScheduler,
)
    requires
        tick_outcome(before, c, now, settings, any_active, Some(p), after),
    ensures
        !any_active,
        settings.enabled && has_model(settings.chat_model) && settings.heartbeat_enabled,
        c.contains(p),
        exists|mid: Map<Seq<char>, u64>|
            tracked_times(
                before.due_view(),
                c,
                now,
                heartbeat_bounds(settings).0,
                heartbeat_bounds(settings).1,
                mid,
            ) && due(mid, p, now),
{
    let mid = choose|mid: Map<Seq<char>, u64>|
        {
            &&& tracked_times(
                before.due_view(),
                c,
                now,
                heartbeat_bounds(settings).0,
                heartbeat_bounds(settings).1,
                mid,
            )
            &&& pick(c, mid, now, before.last_heartbeat_ms, any_active) == Some(p)
        };
    picked_pet_is_due_candidate(c, mid, now, before.last_heartbeat_ms, any_active);
}

/// The marker text under which a heartbeat started at `now` holds its pet.
pub open spec fn marker_text(now: u64) -> Seq<char> {
    "heartbeat"@ + "-"@ + decimal(now as nat)
}

/// What one pass of the scheduler loop does before a heartbeat runs: a
/// `tick` told whether any pet is replying, and, when it picks a pet, the
/// pet claimed under the heartbeat's marker.
pub open spec fn heartbeat_started(
    s0: HeartbeatScheduler,
    c0: ChatRegistry,
    candidates: Seq<Seq<char>>,
    now: u64,
    settings: AiSettings,
    res: Option<(Seq<char>, Seq<char>)>,
    s1: HeartbeatScheduler,
    c1: ChatRegistry,
) -> bool {
    &&& tick_outcome(
        s0,
        candidates,
        now,
        settings,
        c0.active_view().dom() != Set::<Seq<char>>::empty(),
        match res {
            Some((p, _)) => Some(p),
            None => None,
        },
        s1,
    )
    &&& c1.task_view() == c0.task_view()
    &&& match res {
        Some((p, m)) => m == marker_text(now) && c1.active_view() == c0.active_view().insert(p, m),
        None => c1.active_view() == c0.active_view(),
    }
}

/// What ending a heartbeat does: its pet is freed when it still holds the
/// heartbeat's marker, and kept when a request has replaced it.
pub open spec fn heartbeat_released(c0: ChatRegistry, p: Seq<char>, m: Seq<char>, c1: ChatRegistry) -> bool {
    &&& c1.task_view() == c0.task_view()
    &&& c1.active_view() == if c0.active_view().contains_key(p) && c0.active_view()[p] == m {
        c0.active_view().remove(p)
    } else {
        c0.active_view()
    }
}

/// One pass of `start_heartbeat_scheduler` up to the heartbeat itself: the
/// scheduler ticks, told whether any pet is replying; a picked pet is
/// claimed under `heartbeat-{now}` and returned with that marker.
pub fn start_heartbeat(
    scheduler: &mut HeartbeatScheduler,
    chats: &mut ChatRegistry,
    candidates: &Vec<String>,
    now: u64,
    settings: &AiSettings,
) -> (res: Option<(String, String)>)
    requires
        old(scheduler).wf(),
        old(chats).wf(),
    ensures
        final(scheduler).wf(),
        final(chats).wf(),
        heartbeat_started(
            *old(scheduler),
            *old(chats),
            string_views(candidates@),
            now,
            *settings,
            match res {
                Some((p, m)) => Some((p@, m@)),
                None => None,
            },
            *final(scheduler),
            *final(chats),
        ),
{
    let any_active = chats.any_active();
    match scheduler.tick(candidates, now, settings, any_active) {
        Some(pet_id) => {
            let marker = heartbeat_marker(now);
            chats.claim(pet_id.as_str(), marker.as_str());
            Some((pet_id, marker))
        },
        None => None,
    }
}

/// The end of a heartbeat started by `start_heartbeat`: its claim is
/// released unless a request has taken the pet over.
pub fn finish_heartbeat(chats: &mut ChatRegistry, pet_id: &str, marker: &str)
    requires
        old(chats).wf(),
    ensures
        final(chats).wf(),
        heartbeat_released(*old(chats), pet_id@, marker@, *final(chats)),
{
    chats.release_claim(pet_id, marker);
}

/// The scheduler's life, one heartbeat and the next: a heartbeat starts
/// only while no pet is replying, with chat and heartbeats on, for a due
/// candidate; while it runs its pet is held under `heartbeat-{t1}`; when
/// it ends the pet is freed unless a request replaced the marker; and the
/// next heartbeat that starts does so ten minutes later or more, again
/// only while no pet is replying.
pub proof fn heartbeat_scheduler_lifetime(
    s0: HeartbeatScheduler,
    c0: ChatRegistry,
    cands1: Seq<Seq<char>>,
    t1: u64,
    settings1: AiSettings,
    p1: Seq<char>,
    m1: Seq<char>,
    s1: HeartbeatScheduler,
    c1: ChatRegistry,
    before_end: ChatRegistry,
    after_end: ChatRegistry,
    next_chats: ChatRegistry,
    cands2: Seq<Seq<char>>,
    t2: u64,
    settings2: AiSettings,
    r2: Option<(Seq<char>, Seq<char>)>,
    s2: HeartbeatScheduler,
    c2: ChatRegistry,
)
    requires
        heartbeat_started(s0, c0, cands1, t1, settings1, Some((p1, m1)), s1, c1),
        heartbeat_released(before_end, p1, m1, after_end),
        heartbeat_started(s1, next_chats, cands2, t2, settings2, r2, s2, c2),
    ensures
        c0.active_view().dom() == Set::<Seq<char>>::empty(),
        settings1.enabled && has_model(settings1.chat_model) && settings1.heartbeat_enabled,
        cands1.contains(p1),
        c1.active_view().contains_key(p1) && c1.active_view()[p1] == m1 && m1 == marker_text(t1),
        before_end.active_view().contains_key(p1) && before_end.active_view()[p1] == m1
            ==> !after_end.active_view().contains_key(p1),
        !(before_end.active_view().contains_key(p1) && before_end.active_view()[p1] == m1)
            ==> after_end.active_view() == before_end.active_view(),
        r2 is Some ==> t2 >= t1 + 600000 && next_chats.active_view().dom() == Set::<Seq<char>>::empty(),
{
    tick_picks_only_a_free_due_candidate(
        s0,
        cands1,
        t1,
        settings1,
        c0.active_view().dom() != Set::<Seq<char>>::empty(),
        p1,
        s1,
    );
    if let Some((p2, m2)) = r2 {
        tick_picks_only_a_free_due_candidate(
            s1,
            cands2,
            t2,
            settings2,
            next_chats.active_view().dom() != Set::<Seq<char>>::empty(),
            p2,
            s2,
        );
    }
}

/// Over any run of scheduler passes, heartbeats start ten minutes apart or
/// more, whatever passes that picked no pet came between: for ticks `k`
/// from `states[k]` to `states[k + 1]`, two that pick a pet, at `i` and
/// then `j`, are `600000` ms apart or more.
pub proof fn heartbeats_are_spaced_over_a_run(
    states: Seq<HeartbeatScheduler>,
    candidates: Seq<Seq<Seq<char>>>,
    times: Seq<u64>,
    settings: Seq<AiSettings>,
    active: Seq<bool>,
    picks: Seq<Option<Seq<char>>>,
    i: int,
    j: int,
)
    requires
        states.len() == picks.len() + 1,
        candidates.len() == picks.len(),
        times.len() == picks.len(),
        settings.len() == picks.len(),
        active.len() == picks.len(),
        forall|k: int|
            0 <= k < picks.len() ==> tick_outcome(
                states[k],
                candidates[k],
                times[k],
                settings[k],
                active[k],
                #[trigger] picks[k],
                states[k + 1],
            ),
        0 <= i < j < picks.len(),
        picks[i] is Some,
        picks[j] is Some,
    ensures
        times[j] >= times[i] + 600000,
{
    let stamps = Seq::new(states.len(), |k: int| states[k].last_heartbeat_ms);
    let fired = Seq::new(picks.len(), |k: int| picks[k] is Some);
    assert forall|k: int| 0 <= k < fired.len() implies stamp_step(
        stamps[k],
        times[k],
        #[trigger] fired[k],
        stamps[k + 1],
        600000,
    ) by {
        assert(tick_outcome(
            states[k],
            candidates[k],
            times[k],
            settings[k],
            active[k],
            picks[k],
            states[k + 1],
        ));
    }
    fired_steps_are_spaced(stamps, times, fired, 600000, i, j);
}

/// A heartbeat never interrupts a reply: while some pet is replying, no
/// pet is picked.
pub proof fn no_heartbeat_while_replying(c: Seq<Seq<char>>, m: Map<Seq<char>, u64>, now: u64, last: u64)
    ensures
        pick(c, m, now, last, true) is None,
{
}

/// Only a due candidate is picked.
pub proof fn picked_pet_is_due_candidate(
    c: Seq<Seq<char>>,
    m: Map<Seq<char>, u64>,
    now: u64,
    last: u64,
    any_active: bool,
)
    ensures
        pick(c, m, now, last, any_active) matches Some(p) ==> c.contains(p) && due(m, p, now),
{
    lemma_first_due_is_due(c, m, now, 0);
    if let Some(i) = first_due_from(c, m, now, 0) {
        if !(throttled(now, last) || any_active) {
            assert(c[i] == c[i]);
        }
    }
}

} // verus!
