//! Interface languages and the labels shown to the operator.
use vstd::prelude::*;
use crate::text::{chars_of, eq_lit};

verus! {

/// The language of labels and of the default system prompt.
#[derive(Debug, Clone, Copy, PartialEq, Eq, Structural)]
pub enum Language {
    Chinese,
    English,
}

impl Default for Language {
    fn default() -> (r: Language)
        ensures
            r == Language::Chinese,
    {
        Language::Chinese
    }
}

/// What `str::to_lowercase` gives for a text.
pub uninterp spec fn lower_of(s: Seq<char>) -> Seq<char>;

/// Relies on `str::to_lowercase`: the result depends on the characters alone.
#[verifier::external_body]
pub(crate) fn lowercase(s: &str) -> (r: String)
    ensures
        r@ == lower_of(s@),
{
    s.to_lowercase()
}

/// The language that a lower-case name selects: `en` or `english` select
/// English, anything else Chinese.
pub open spec fn language_named(lowered: Seq<char>) -> Language {
    if lowered == "en"@ || lowered == "english"@ {
        Language::English
    } else {
        Language::Chinese
    }
}

impl Language {
    /// The language for a name already in lower case.
    pub fn from_lowered(lowered: &str) -> (r: Language)
        ensures
            r == language_named(lowered@),
    {
        let s = chars_of(lowered);
        if eq_lit(&s, "en") || eq_lit(&s, "english") {
            Language::English
        } else {
            Language::Chinese
        }
    }

    /// The language for a name, in any case.
    pub fn from_str(s: &str) -> (r: Language)
        ensures
            r == language_named(lower_of(s@)),
    {
        let l = lowercase(s);
        Language::from_lowered(l.as_str())
    }

    /// The language code: `cn` or `en`.
    pub fn as_str(&self) -> (r: &'static str)
        ensures
            *self == Language::Chinese ==> r@ == "cn"@,
            *self == Language::English ==> r@ == "en"@,
    {
        match self {
            Language::Chinese => "cn",
            Language::English => "en",
        }
    }
}

/// The label table: the label for `key` in the language, if there is one.
pub open spec fn message_for(key: Seq<char>, lang: Language) -> Option<Seq<char>> {
    let en = lang == Language::English;
    if key == "thinking"@ {
        Some(if en { "Thinking"@ } else { "思考过程"@ })
    } else if key == "action"@ {
        Some(if en { "Action"@ } else { "执行动作"@ })
    } else if key == "task_completed"@ {
        Some(if en { "Task Completed"@ } else { "任务完成"@ })
    } else if key == "done"@ {
        Some(if en { "Done"@ } else { "完成"@ })
    } else if key == "starting_task"@ {
        Some(if en { "Starting task"@ } else { "开始执行任务"@ })
    } else if key == "final_result"@ {
        Some(if en { "Final Result"@ } else { "最终结果"@ })
    } else if key == "task_result"@ {
        Some(if en { "Task Result"@ } else { "任务结果"@ })
    } else if key == "confirmation_required"@ {
        Some(if en { "Confirmation Required"@ } else { "需要确认"@ })
    } else if key == "continue_prompt"@ {
        Some(if en { "Continue? (y/n)"@ } else { "是否继续？(y/n)"@ })
    } else if key == "manual_operation_required"@ {
        Some(if en { "Manual Operation Required"@ } else { "需要人工操作"@ })
    } else if key == "manual_operation_hint"@ {
        Some(if en { "Please complete the operation manually..."@ } else { "请手动完成操作..."@ })
    } else if key == "press_enter_when_done"@ {
        Some(if en { "Press Enter when done"@ } else { "完成后按回车继续"@ })
    } else if key == "connection_failed"@ {
        Some(if en { "Connection Failed"@ } else { "连接失败"@ })
    } else if key == "connection_successful"@ {
        Some(if en { "Connection Successful"@ } else { "连接成功"@ })
    } else if key == "step"@ {
        Some(if en { "Step"@ } else { "步骤"@ })
    } else if key == "task"@ {
        Some(if en { "Task"@ } else { "任务"@ })
    } else if key == "result"@ {
        Some(if en { "Result"@ } else { "结果"@ })
    } else if key == "performance_metrics"@ {
        Some(if en { "Performance Metrics"@ } else { "性能指标"@ })
    } else if key == "time_to_first_token"@ {
        Some(if en { "Time to First Token (TTFT)"@ } else { "首 Token 延迟 (TTFT)"@ })
    } else if key == "time_to_thinking_end"@ {
        Some(if en { "Time to Thinking End"@ } else { "思考完成延迟"@ })
    } else if key == "total_inference_time"@ {
        Some(if en { "Total Inference Time"@ } else { "总推理时间"@ })
    } else {
        None
    }
}

/// The label for `key` in the language, if there is one.
pub fn lookup_message(key: &str, lang: Language) -> (r: Option<&'static str>)
    ensures
        r matches Some(m) ==> message_for(key@, lang) == Some(m@),
        r is None ==> message_for(key@, lang) is None,
{
    let k = chars_of(key);
    let en = lang == Language::English;
    if eq_lit(&k, "thinking") {
        Some(if en { "Thinking" } else { "思考过程" })
    } else if eq_lit(&k, "action") {
        Some(if en { "Action" } else { "执行动作" })
    } else if eq_lit(&k, "task_completed") {
        Some(if en { "Task Completed" } else { "任务完成" })
    } else if eq_lit(&k, "done") {
        Some(if en { "Done" } else { "完成" })
    } else if eq_lit(&k, "starting_task") {
        Some(if en { "Starting task" } else { "开始执行任务" })
    } else if eq_lit(&k, "final_result") {
        Some(if en { "Final Result" } else { "最终结果" })
    } else if eq_lit(&k, "task_result") {
        Some(if en { "Task Result" } else { "任务结果" })
    } else if eq_lit(&k, "confirmation_required") {
        Some(if en { "Confirmation Required" } else { "需要确认" })
    } else if eq_lit(&k, "continue_prompt") {
        Some(if en { "Continue? (y/n)" } else { "是否继续？(y/n)" })
    } else if eq_lit(&k, "manual_operation_required") {
        Some(if en { "Manual Operation Required" } else { "需要人工操作" })
    } else if eq_lit(&k, "manual_operation_hint") {
        Some(if en { "Please complete the operation manually..." } else { "请手动完成操作..." })
    } else if eq_lit(&k, "press_enter_when_done") {
        Some(if en { "Press Enter when done" } else { "完成后按回车继续" })
    } else if eq_lit(&k, "connection_failed") {
        Some(if en { "Connection Failed" } else { "连接失败" })
    } else if eq_lit(&k, "connection_successful") {
        Some(if en { "Connection Successful" } else { "连接成功" })
    } else if eq_lit(&k, "step") {
        Some(if en { "Step" } else { "步骤" })
    } else if eq_lit(&k, "task") {
        Some(if en { "Task" } else { "任务" })
    } else if eq_lit(&k, "result") {
        Some(if en { "Result" } else { "结果" })
    } else if eq_lit(&k, "performance_metrics") {
        Some(if en { "Performance Metrics" } else { "性能指标" })
    } else if eq_lit(&k, "time_to_first_token") {
        Some(if en { "Time to First Token (TTFT)" } else { "首 Token 延迟 (TTFT)" })
    } else if eq_lit(&k, "time_to_thinking_end") {
        Some(if en { "Time to Thinking End" } else { "思考完成延迟" })
    } else if eq_lit(&k, "total_inference_time") {
        Some(if en { "Total Inference Time" } else { "总推理时间" })
    } else {
        None
    }
}

/// The label for `key` in the language; the key itself when there is none.
pub fn get_message<'a>(key: &'a str, lang: Language) -> (r: &'a str)
    ensures
        message_for(key@, lang) matches Some(m) ==> r@ == m,
        message_for(key@, lang) is None ==> r@ == key@,
{
    match lookup_message(key, lang) {
        Some(m) => m,
        None => key,
    }
}

} // verus!
