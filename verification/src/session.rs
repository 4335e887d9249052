//! Rules of a writing session: the project folders, the starting
//! milestones, the daily word-count tally, auto-save timing and how the
//! status line is coloured.
use vstd::prelude::*;
use crate::files::contains_chars;
use crate::models::Milestone;
use crate::text::{chars_of, contains_seq};

verus! {

/// The folders every project has.
pub fn project_subdirs() -> (r: &'static [&'static str])
    ensures
        r@.len() == 3,
        r@[0]@ == "chapters"@,
        r@[1]@ == "data"@,
        r@[2]@ == "废稿"@,
{
    &["chapters", "data", "废稿"]
}

/// The milestones a new session starts with.
pub fn default_milestones() -> (r: Vec<Milestone>)
    ensures
        r@.len() == 7,
        r@[0].name@ == "完成 VS Code 风格 UI 复刻"@,
        r@[1].name@ == "实现本地 MD/JSON 文件操作"@,
        r@[2].name@ == "完成轻量化基础（体积/速度/内存）"@,
        r@[3].name@ == "完成人设图形化编辑器（卡片视图）"@,
        r@[4].name@ == "完成章节时间轴编辑器"@,
        r@[5].name@ == "完成大纲树与伏笔管理"@,
        r@[6].name@ == "接入本地 LLM 模型"@,
        forall|i: int|
            0 <= i < r@.len() ==> !(#[trigger] r@[i]).completed && r@[i].description@.len() == 0,
{
    let mut v: Vec<Milestone> = Vec::new();
    v.push(Milestone::new("完成 VS Code 风格 UI 复刻"));
    v.push(Milestone::new("实现本地 MD/JSON 文件操作"));
    v.push(Milestone::new("完成轻量化基础（体积/速度/内存）"));
    v.push(Milestone::new("完成人设图形化编辑器（卡片视图）"));
    v.push(Milestone::new("完成章节时间轴编辑器"));
    v.push(Milestone::new("完成大纲树与伏笔管理"));
    v.push(Milestone::new("接入本地 LLM 模型"));
    v
}

/// Words a save adds to today's tally: how much the file's count grew since
/// the last save, nothing when it shrank.
pub open spec fn gained_words(baseline: nat, current: nat) -> nat {
    if current > baseline {
        (current - baseline) as nat
    } else {
        0
    }
}

/// Today's tally after saving a file whose word count went from `baseline`
/// to `current`; the count becomes the file's new baseline.
pub fn add_word_gain(today: usize, baseline: usize, current: usize) -> (r: usize)
    requires
        today + gained_words(baseline as nat, current as nat) <= usize::MAX,
    ensures
        r == today + gained_words(baseline as nat, current as nat),
{
    if current > baseline {
        today + (current - baseline)
    } else {
        today
    }
}

/// Auto-save runs once the interval (in seconds) has passed since the last
/// one; an interval of 0 turns it off, and nothing is saved before the clock
/// has started.
pub open spec fn autosave_due(interval_secs: u32, elapsed_secs: Option<u64>) -> bool {
    interval_secs > 0 && match elapsed_secs {
        Some(e) => e >= interval_secs,
        None => false,
    }
}

/// Whether the auto-save is due.
pub fn should_autosave(interval_secs: u32, elapsed_secs: Option<u64>) -> (r: bool)
    ensures
        r == autosave_due(interval_secs, elapsed_secs),
{
    if interval_secs == 0 {
        return false;
    }
    match elapsed_secs {
        Some(e) => e >= interval_secs as u64,
        None => false,
    }
}

/// How the status line is coloured.
#[derive(Clone, Copy, Debug, PartialEq, Eq, Structural)]
pub enum StatusTone {
    Error,
    Success,
    Neutral,
}

/// A status mentioning a failure or an error is an error; one mentioning a
/// completion, a save, a sync, a load or the trash is a success.
pub open spec fn status_tone_of(s: Seq<char>) -> StatusTone {
    if contains_seq(s, "失败"@) || contains_seq(s, "错误"@) {
        StatusTone::Error
    } else if contains_seq(s, "完成"@) || contains_seq(s, "已保存"@) || contains_seq(s, "已同步"@)
        || contains_seq(s, "已加载"@) || contains_seq(s, "废稿"@) {
        StatusTone::Success
    } else {
        StatusTone::Neutral
    }
}

/// The tone of a status message.
pub fn status_tone(status: &str) -> (r: StatusTone)
    ensures
        r == status_tone_of(status@),
{
    let s = chars_of(status);
    if contains_chars(&s, &chars_of("失败")) || contains_chars(&s, &chars_of("错误")) {
        StatusTone::Error
    } else if contains_chars(&s, &chars_of("完成")) || contains_chars(&s, &chars_of("已保存"))
        || contains_chars(&s, &chars_of("已同步")) || contains_chars(&s, &chars_of("已加载"))
        || contains_chars(&s, &chars_of("废稿")) {
        StatusTone::Success
    } else {
        StatusTone::Neutral
    }
}

} // verus!
