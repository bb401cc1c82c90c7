//! A pet's lines (`character.json`): the defaults, what is kept of an
//! imported file, and what an imported file may hold.
use vstd::prelude::*;

use crate::json::{follow, pointer, token_ok, token_views, JsonValue};
use crate::stream::string_views;
use crate::text::{char_count, trim, trim_str};

verus! {

/// What a pet says on each kind of interaction.
pub struct PetDialogue {
    pub version: u8,
    pub double_click: Vec<String>,
    pub click: Vec<String>,
    pub right_click: Vec<String>,
    pub walk: Vec<String>,
    pub drag: Vec<String>,
    pub idle: Vec<String>,
}

/// The mathematical form of a [`PetDialogue`].
pub struct DialogueView {
    pub version: u8,
    pub double_click: Seq<Seq<char>>,
    pub click: Seq<Seq<char>>,
    pub right_click: Seq<Seq<char>>,
    pub walk: Seq<Seq<char>>,
    pub drag: Seq<Seq<char>>,
    pub idle: Seq<Seq<char>>,
}

impl View for PetDialogue {
    type V = DialogueView;

    open spec fn view(&self) -> DialogueView {
        DialogueView {
            version: self.version,
            double_click: string_views(self.double_click@),
            click: string_views(self.click@),
            right_click: string_views(self.right_click@),
            walk: string_views(self.walk@),
            drag: string_views(self.drag@),
            idle: string_views(self.idle@),
        }
    }
}

pub open spec fn default_double_click() -> Seq<Seq<char>> {
    seq!["嗯？找我吗？"@, "今天也一起玩吧。"@]
}

pub open spec fn default_dialogue() -> DialogueView {
    DialogueView {
        version: 1,
        double_click: default_double_click(),
        click: seq!["怎么啦？"@, "我在这里哦。"@],
        right_click: seq!["轻一点嘛。"@],
        walk: seq!["我去附近转转。"@, "散步时间到了！"@],
        drag: seq!["要带我去哪里呀？"@, "我来啦！"@],
        idle: seq!["这里待着也很舒服。"@, "要不要陪我说说话？"@],
    }
}

fn lines(a: &str, b: &str) -> (v: Vec<String>)
    ensures
        string_views(v@) == seq![a@, b@],
{
    let mut v: Vec<String> = Vec::new();
    v.push(String::from_str(a));
    v.push(String::from_str(b));
    assert(string_views(v@) =~= seq![a@, b@]);
    v
}

fn default_double_click_lines() -> (v: Vec<String>)
    ensures
        string_views(v@) == default_double_click(),
{
    lines("嗯？找我吗？", "今天也一起玩吧。")
}

impl Default for PetDialogue {
    fn default() -> (d: Self)
        ensures
            d@ == default_dialogue(),
    {
        let mut right_click: Vec<String> = Vec::new();
        right_click.push(String::from_str("轻一点嘛。"));
        assert(string_views(right_click@) =~= seq!["轻一点嘛。"@]);
        PetDialogue {
            version: 1,
            double_click: default_double_click_lines(),
            click: lines("怎么啦？", "我在这里哦。"),
            right_click,
            walk: lines("我去附近转转。", "散步时间到了！"),
            drag: lines("要带我去哪里呀？", "我来啦！"),
            idle: lines("这里待着也很舒服。", "要不要陪我说说话？"),
        }
    }
}

/// The trimmed lines that are not empty, in order.
pub open spec fn trimmed_nonempty(s: Seq<Seq<char>>) -> Seq<Seq<char>>
    decreases s.len(),
{
    if s.len() == 0 {
        s
    } else {
        let r = trimmed_nonempty(s.drop_last());
        if trim(s.last()).len() > 0 {
            r.push(trim(s.last()))
        } else {
            r
        }
    }
}

/// The lines kept of one list: trimmed, empty ones dropped, at most 32.
pub open spec fn kept_lines(s: Seq<Seq<char>>) -> Seq<Seq<char>> {
    let t = trimmed_nonempty(s);
    if t.len() > 32 {
        t.take(32)
    } else {
        t
    }
}

/// `normalize_dialogue`: every list keeps its trimmed, non-empty lines (at
/// most 32). An empty list stays empty: it switches those lines off. A
/// double-click list that had lines but no valid one gets the default lines.
pub open spec fn normalized_dialogue(d: DialogueView) -> DialogueView {
    DialogueView {
        version: d.version,
        double_click: if d.double_click.len() > 0 && kept_lines(d.double_click).len() == 0 {
            default_double_click()
        } else {
            kept_lines(d.double_click)
        },
        click: kept_lines(d.click),
        right_click: kept_lines(d.right_click),
        walk: kept_lines(d.walk),
        drag: kept_lines(d.drag),
        idle: kept_lines(d.idle),
    }
}

fn normalize_lines(v: &Vec<String>) -> (out: Vec<String>)
    ensures
        string_views(out@) == kept_lines(string_views(v@)),
{
    let ghost s = string_views(v@);
    let mut all: Vec<String> = Vec::new();
    let mut i: usize = 0;
    while i < v.len()
        invariant
            s == string_views(v@),
            0 <= i <= s.len(),
            string_views(all@) == trimmed_nonempty(s.take(i as int)),
        decreases s.len() - i,
    {
        assert(s.take(i + 1).drop_last() =~= s.take(i as int));
        assert(s.take(i + 1).last() == s[i as int]);
        let t = trim_str(v[i].as_str());
        let ghost before = all@;
        if char_count(t.as_str()) > 0 {
            all.push(t);
            assert(string_views(all@) =~= string_views(before).push(trim(s[i as int])));
        }
        i = i + 1;
    }
    assert(s.take(s.len() as int) =~= s);
    if all.len() > 32 {
        let mut out: Vec<String> = Vec::new();
        let mut k: usize = 0;
        while k < 32
            invariant
                0 <= k <= 32,
                all@.len() > 32,
                string_views(out@) == string_views(all@).take(k as int),
            decreases 32 - k,
        {
            let ghost before = out@;
            out.push(all[k].clone());
            assert(string_views(out@) =~= string_views(all@).take(k + 1)) by {
                assert(string_views(out@) =~= string_views(before).push(all@[k as int]@));
            }
            k = k + 1;
        }
        out
    } else {
        all
    }
}

/// `normalize_dialogue`.
pub fn normalize_dialogue(dialogue: PetDialogue) -> (res: PetDialogue)
    ensures
        res@ == normalized_dialogue(dialogue@),
{
    let double_click_given = dialogue.double_click.len() > 0;
    let double_click = normalize_lines(&dialogue.double_click);
    let double_click = if double_click_given && double_click.len() == 0 {
        default_double_click_lines()
    } else {
        double_click
    };
    PetDialogue {
        version: dialogue.version,
        double_click,
        click: normalize_lines(&dialogue.click),
        right_click: normalize_lines(&dialogue.right_click),
        walk: normalize_lines(&dialogue.walk),
        drag: normalize_lines(&dialogue.drag),
        idle: normalize_lines(&dialogue.idle),
    }
}

/// A line longer than 240 characters.
pub open spec fn has_long_line(s: Seq<Seq<char>>) -> bool {
    exists|i: int| 0 <= i < s.len() && (#[trigger] s[i]).len() > 240
}

pub open spec fn dialogue_too_long(d: DialogueView) -> bool {
    has_long_line(d.double_click) || has_long_line(d.click) || has_long_line(d.right_click)
        || has_long_line(d.walk) || has_long_line(d.drag) || has_long_line(d.idle)
}

fn any_long_line(v: &Vec<String>) -> (b: bool)
    ensures
        b == has_long_line(string_views(v@)),
{
    let ghost s = string_views(v@);
    let mut i: usize = 0;
    while i < v.len()
        invariant
            s == string_views(v@),
            0 <= i <= s.len(),
            forall|j: int| 0 <= j < i ==> (#[trigger] s[j]).len() <= 240,
        decreases s.len() - i,
    {
        if char_count(v[i].as_str()) > 240 {
            assert(s[i as int].len() > 240);
            return true;
        }
        i = i + 1;
    }
    false
}

/// `decode_dialogue`'s size limit: `character.json` is at most 1 MB.
pub fn check_dialogue_size(byte_count: usize) -> (res: Result<(), String>)
    ensures
        byte_count > 1024 * 1024 ==> (res matches Err(e) && e@ == "character.json 不能超过 1 MB"@),
        byte_count <= 1024 * 1024 ==> res is Ok,
{
    if byte_count > 1024 * 1024 {
        return Err(String::from_str("character.json 不能超过 1 MB"));
    }
    Ok(())
}

/// `decode_dialogue`'s checks on a parsed file: only version 1, no line
/// over 240 characters; what passes is normalized.
pub fn check_dialogue(dialogue: PetDialogue) -> (res: Result<PetDialogue, String>)
    ensures
        dialogue@.version != 1 ==> (res matches Err(e) && e@ == "只支持 character.json version: 1"@),
        dialogue@.version == 1 && dialogue_too_long(dialogue@) ==> (res matches Err(e) && e@
            == "character.json 中的单句台词不能超过 240 个字符"@),
        dialogue@.version == 1 && !dialogue_too_long(dialogue@) ==> (res matches Ok(d) && d@
            == normalized_dialogue(dialogue@)),
{
    if dialogue.version != 1 {
        return Err(String::from_str("只支持 character.json version: 1"));
    }
    if any_long_line(&dialogue.double_click) || any_long_line(&dialogue.click) || any_long_line(
        &dialogue.right_click,
    ) || any_long_line(&dialogue.walk) || any_long_line(&dialogue.drag) || any_long_line(
        &dialogue.idle,
    ) {
        return Err(String::from_str("character.json 中的单句台词不能超过 240 个字符"));
    }
    Ok(normalize_dialogue(dialogue))
}

/// A normalized dialogue has something to say on a double click exactly when
/// the file gave double-click lines (an empty list switches them off), and
/// no list holds more than 32 lines or an empty line.
pub proof fn normalized_dialogue_is_usable(d: DialogueView)
    ensures
        (normalized_dialogue(d).double_click.len() > 0) == (d.double_click.len() > 0),
        kept_lines(d.click).len() <= 32,
        forall|i: int| 0 <= i < kept_lines(d.click).len() ==> (#[trigger] kept_lines(d.click)[i]).len() > 0,
{
    lemma_trimmed_nonempty(d.click);
    assert(default_double_click().len() == 2);
}

proof fn lemma_trimmed_nonempty(s: Seq<Seq<char>>)
    ensures
        forall|i: int| 0 <= i < trimmed_nonempty(s).len() ==> (#[trigger] trimmed_nonempty(s)[i]).len() > 0,
    decreases s.len(),
{
    if s.len() > 0 {
        lemma_trimmed_nonempty(s.drop_last());
        let r = trimmed_nonempty(s.drop_last());
        if trim(s.last()).len() > 0 {
            assert forall|i: int| 0 <= i < r.push(trim(s.last())).len() implies (#[trigger] r.push(trim(s.last()))[i]).len() > 0 by {
                if i < r.len() {
                    assert(r.push(trim(s.last()))[i] == r[i]);
                }
            }
        }
    }
}

/// Where a Character Card V2 keeps the pet's lines.
pub open spec fn dialogue_path() -> Seq<Seq<char>> {
    seq!["data"@, "extensions"@, "sakipet"@, "dialogue"@]
}

/// The lines of a `character.json`: those of a Character Card V2 under
/// `data.extensions.sakipet.dialogue`, or the whole file in the older form.
pub fn dialogue_part(document: &JsonValue) -> (res: &JsonValue)
    ensures
        res@ == match pointer(document@, dialogue_path()) {
            Some(v) => v,
            None => document@,
        },
{
    let path: Vec<&str> = vec!["data", "extensions", "sakipet", "dialogue"];
    proof {
        reveal_strlit("data");
        reveal_strlit("extensions");
        reveal_strlit("sakipet");
        reveal_strlit("dialogue");
        assert forall|i: int| 0 <= i < path@.len() implies token_ok(#[trigger] path@[i]@) by {
            assert(path@[i]@.len() > 0);
            assert(path@[i]@[0] != '0');
        }
        assert(token_views(path@) =~= dialogue_path());
    }
    match follow(document, &path) {
        Some(v) => v,
        None => document,
    }
}

} // verus!
