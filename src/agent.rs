//! The step state machine of the agent: what one step adds to the
//! conversation, how a step's result is formed, and when a run stops.
use vstd::prelude::*;
use crate::dispatch::{opt_view, ActionHandler, ActionResult, ResultModel};
use crate::i18n::Language;
use crate::messages::{
    messages_view, png_url, screen_info_of, without_image, ChatMessage, MessageBuilder, MessageModel,
    Role,
};
use crate::parser::{parse_action, parse_result};
use crate::record::{finish_action, lookup, ActionRecord, RecordKind, RecordModel};
use crate::text::{chars_of, concat_chars, concat_str, string_of};
use crate::value::ValueModel;

verus! {

/// How the agent runs: its step budget, device, language and prompt.
#[derive(Debug, Clone)]
pub struct AgentConfig {
    pub max_steps: usize,
    pub device_id: Option<String>,
    pub lang: Language,
    pub system_prompt: Option<String>,
    pub verbose: bool,
    /// Directory to save screenshots in, if any.
    pub screenshot_dir: Option<String>,
}

impl Default for AgentConfig {
    fn default() -> (r: AgentConfig)
        ensures
            r.max_steps == 100,
            r.device_id is None,
            r.lang == Language::Chinese,
            r.system_prompt is None,
            r.verbose,
            r.screenshot_dir is None,
    {
        AgentConfig {
            max_steps: 100,
            device_id: None,
            lang: Language::Chinese,
            system_prompt: None,
            verbose: true,
            screenshot_dir: None,
        }
    }
}

/// The built-in system prompt of a language.
pub open spec fn default_prompt(lang: Language) -> Seq<char> {
    if lang == Language::English {
        "You operate a phone for the user. Each turn you see the current screen and the app in front. Think step by step, then end your reply with exactly one call: do(action=\"Tap\", element=[x,y]), do(action=\"Swipe\", start=[x1,y1], end=[x2,y2]), do(action=\"Type\", text=\"...\"), do(action=\"Launch\", app=\"...\"), do(action=\"Back\"), do(action=\"Home\"), do(action=\"Long Press\", element=[x,y]), do(action=\"Double Tap\", element=[x,y]), do(action=\"Wait\", duration=\"1 seconds\"), do(action=\"Take_over\", message=\"...\"), or finish(message=\"...\") when the task is done. Coordinates run from 0 to 1000 on each axis. Add message=\"...\" to a tap that needs the user's confirmation."@
    } else {
        "你是操作手机的助手。每一轮你会看到当前屏幕和前台应用。请逐步思考，最后只输出一个调用：do(action=\"Tap\", element=[x,y])、do(action=\"Swipe\", start=[x1,y1], end=[x2,y2])、do(action=\"Type\", text=\"...\")、do(action=\"Launch\", app=\"...\")、do(action=\"Back\")、do(action=\"Home\")、do(action=\"Long Press\", element=[x,y])、do(action=\"Double Tap\", element=[x,y])、do(action=\"Wait\", duration=\"1 seconds\")、do(action=\"Take_over\", message=\"...\")，任务完成时输出 finish(message=\"...\")。坐标在每个方向上取 0 到 1000。需要用户确认的点击请加上 message=\"...\"。"@
    }
}

/// The built-in system prompt of a language.
pub fn get_system_prompt(lang: Language) -> (r: String)
    ensures
        r@ == default_prompt(lang),
{
    match lang {
        Language::English => string_of(&chars_of("You operate a phone for the user. Each turn you see the current screen and the app in front. Think step by step, then end your reply with exactly one call: do(action=\"Tap\", element=[x,y]), do(action=\"Swipe\", start=[x1,y1], end=[x2,y2]), do(action=\"Type\", text=\"...\"), do(action=\"Launch\", app=\"...\"), do(action=\"Back\"), do(action=\"Home\"), do(action=\"Long Press\", element=[x,y]), do(action=\"Double Tap\", element=[x,y]), do(action=\"Wait\", duration=\"1 seconds\"), do(action=\"Take_over\", message=\"...\"), or finish(message=\"...\") when the task is done. Coordinates run from 0 to 1000 on each axis. Add message=\"...\" to a tap that needs the user's confirmation.")),
        Language::Chinese => string_of(&chars_of("你是操作手机的助手。每一轮你会看到当前屏幕和前台应用。请逐步思考，最后只输出一个调用：do(action=\"Tap\", element=[x,y])、do(action=\"Swipe\", start=[x1,y1], end=[x2,y2])、do(action=\"Type\", text=\"...\")、do(action=\"Launch\", app=\"...\")、do(action=\"Back\")、do(action=\"Home\")、do(action=\"Long Press\", element=[x,y])、do(action=\"Double Tap\", element=[x,y])、do(action=\"Wait\", duration=\"1 seconds\")、do(action=\"Take_over\", message=\"...\")，任务完成时输出 finish(message=\"...\")。坐标在每个方向上取 0 到 1000。需要用户确认的点击请加上 message=\"...\"。")),
    }
}

impl AgentConfig {
    pub fn new() -> (r: AgentConfig)
        ensures
            r.max_steps == 100,
            r.device_id is None,
            r.lang == Language::Chinese,
            r.system_prompt is None,
            r.verbose,
            r.screenshot_dir is None,
    {
        AgentConfig::default()
    }

    pub fn with_max_steps(self, max_steps: usize) -> (r: AgentConfig)
        ensures
            r == (AgentConfig { max_steps, ..self }),
    {
        AgentConfig { max_steps, ..self }
    }

    pub fn with_device_id(self, device_id: &str) -> (r: AgentConfig)
        ensures
            r.device_id matches Some(d) && d@ == device_id@,
            r.max_steps == self.max_steps && r.lang == self.lang && r.system_prompt
                == self.system_prompt && r.verbose == self.verbose && r.screenshot_dir
                == self.screenshot_dir,
    {
        AgentConfig { device_id: Some(string_of(&chars_of(device_id))), ..self }
    }

    pub fn with_lang(self, lang: Language) -> (r: AgentConfig)
        ensures
            r == (AgentConfig { lang, ..self }),
    {
        AgentConfig { lang, ..self }
    }

    pub fn with_system_prompt(self, prompt: &str) -> (r: AgentConfig)
        ensures
            r.system_prompt matches Some(p) && p@ == prompt@,
            r.max_steps == self.max_steps && r.lang == self.lang && r.device_id == self.device_id
                && r.verbose == self.verbose && r.screenshot_dir == self.screenshot_dir,
    {
        AgentConfig { system_prompt: Some(string_of(&chars_of(prompt))), ..self }
    }

    pub fn with_verbose(self, verbose: bool) -> (r: AgentConfig)
        ensures
            r == (AgentConfig { verbose, ..self }),
    {
        AgentConfig { verbose, ..self }
    }

    pub fn with_screenshot_dir(self, dir: &str) -> (r: AgentConfig)
        ensures
            r.screenshot_dir matches Some(d) && d@ == dir@,
            r.max_steps == self.max_steps && r.lang == self.lang && r.device_id == self.device_id
                && r.verbose == self.verbose && r.system_prompt == self.system_prompt,
    {
        AgentConfig { screenshot_dir: Some(string_of(&chars_of(dir))), ..self }
    }

    /// The custom system prompt if there is one, else the built-in one.
    pub fn get_system_prompt(&self) -> (r: String)
        ensures
            r@ == prompt_of(*self),
    {
        match &self.system_prompt {
            Some(p) => string_of(&chars_of(p.as_str())),
            None => get_system_prompt(self.lang),
        }
    }
}

pub open spec fn prompt_of(c: AgentConfig) -> Seq<char> {
    match c.system_prompt {
        Some(p) => p@,
        None => default_prompt(c.lang),
    }
}

/// The visible result of one step.
#[derive(Debug, Clone)]
pub struct StepResult {
    pub success: bool,
    pub finished: bool,
    pub action: Option<ActionRecord>,
    pub thinking: String,
    pub message: Option<String>,
}

/// What the run loop does after a step.
#[derive(Debug, Clone)]
pub enum RunControl {
    /// Take another step.
    Continue,
    /// The task ended; the final message.
    Finished(String),
    /// The step budget is spent; the final message.
    Exhausted(String),
}

pub enum ControlModel {
    Continue,
    Finished(Seq<char>),
    Exhausted(Seq<char>),
}

impl View for RunControl {
    type V = ControlModel;

    open spec fn view(&self) -> ControlModel {
        match self {
            RunControl::Continue => ControlModel::Continue,
            RunControl::Finished(m) => ControlModel::Finished(m@),
            RunControl::Exhausted(m) => ControlModel::Exhausted(m@),
        }
    }
}

/// After a step with `count` steps taken of `max`: a finished step ends
/// the run with its message (or "Task completed"); otherwise the run goes on
/// while steps remain, and ends as exhausted when none do.
pub open spec fn control_of(count: int, max: int, finished: bool, message: Option<Seq<char>>) -> ControlModel {
    if finished {
        ControlModel::Finished(
            match message {
                Some(m) => m,
                None => "Task completed"@,
            },
        )
    } else if count < max {
        ControlModel::Continue
    } else {
        ControlModel::Exhausted("Max steps reached"@)
    }
}

/// The record a response yields: the parsed call, or when the call cannot be
/// parsed, a `finish` record whose message is the action text.
pub open spec fn record_for(action_text: Seq<char>) -> RecordModel {
    match parse_result(action_text) {
        Ok(r) => r,
        Err(_) => RecordModel {
            kind: RecordKind::Finish,
            entries: seq![("message"@, ValueModel::Text(action_text))],
        },
    }
}

pub open spec fn text_message(r: RecordModel) -> Option<Seq<char>> {
    match lookup(r.entries, "message"@) {
        Some(ValueModel::Text(m)) => Some(m),
        _ => None,
    }
}

/// A step ends the task when its record is a `finish` or its outcome says so.
pub open spec fn step_finished(r: RecordModel, outcome: ResultModel) -> bool {
    r.kind == RecordKind::Finish || outcome.should_finish
}

/// The turns that one step adds before the model is asked.
pub open spec fn observation_turns(
    is_first: bool,
    prompt: Seq<char>,
    task: Seq<char>,
    current_app: Seq<char>,
    screenshot: Seq<char>,
) -> Seq<MessageModel> {
    if is_first {
        seq![
            MessageModel { role: Role::System, text: prompt, image_url: None },
            MessageModel {
                role: Role::User,
                text: task + "\n\n"@ + screen_info_of(current_app),
                image_url: Some(png_url(screenshot)),
            },
        ]
    } else {
        seq![
            MessageModel {
                role: Role::User,
                text: "** Screen Info **\n\n"@ + screen_info_of(current_app),
                image_url: Some(png_url(screenshot)),
            },
        ]
    }
}

/// The conversation after the model's reply: the last turn loses its image
/// and the reply is appended as an assistant turn.
pub open spec fn after_reply(ctx: Seq<MessageModel>, thinking: Seq<char>, action_text: Seq<char>) -> Seq<MessageModel> {
    let reply = MessageModel {
        role: Role::Assistant,
        text: "<think>"@ + thinking + "</think><answer>"@ + action_text + "</answer>"@,
        image_url: None,
    };
    if ctx.len() > 0 {
        ctx.drop_last().push(without_image(ctx.last())).push(reply)
    } else {
        ctx.push(reply)
    }
}

/// The agent for one device: its configuration, conversation and step counter.
pub struct PhoneAgent {
    agent_config: AgentConfig,
    action_handler: ActionHandler,
    context: Vec<ChatMessage>,
    step_count: usize,
}

impl PhoneAgent {
    pub closed spec fn steps(&self) -> int {
        self.step_count as int
    }

    pub closed spec fn max_steps(&self) -> int {
        self.agent_config.max_steps as int
    }

    pub closed spec fn config(&self) -> AgentConfig {
        self.agent_config
    }

    pub closed spec fn conversation(&self) -> Seq<MessageModel> {
        messages_view(self.context@)
    }

    pub fn new(agent_config: AgentConfig) -> (r: PhoneAgent)
        ensures
            r.steps() == 0,
            r.conversation() == Seq::<MessageModel>::empty(),
            r.config() == agent_config,
            r.max_steps() == agent_config.max_steps,
    {
        let handler = ActionHandler::new(
            match &agent_config.device_id {
                Some(d) => Some(string_of(&chars_of(d.as_str()))),
                None => None,
            },
        );
        let r = PhoneAgent {
            agent_config,
            action_handler: handler,
            context: Vec::new(),
            step_count: 0,
        };
        assert(messages_view(r.context@) =~= Seq::<MessageModel>::empty());
        r
    }

    /// Clears the conversation and the step counter for a new task.
    pub fn reset(&mut self)
        ensures
            final(self).steps() == 0,
            final(self).conversation() == Seq::<MessageModel>::empty(),
            final(self).config() == old(self).config(),
            final(self).max_steps() == old(self).max_steps(),
    {
        self.context = Vec::new();
        self.step_count = 0;
        assert(messages_view(self.context@) =~= Seq::<MessageModel>::empty());
    }

    /// Whether the next step is the first of a task; the first one needs the task text.
    pub fn check_step(&self, task: Option<&str>) -> (r: Result<bool, String>)
        ensures
            r matches Ok(first) ==> first == (self.conversation().len() == 0),
            r is Err <==> self.conversation().len() == 0 && task is None,
            r matches Err(e) ==> e@ == "Task is required for the first step"@,
    {
        let first = self.context.len() == 0;
        if first && task.is_none() {
            Err(string_of(&chars_of("Task is required for the first step")))
        } else {
            Ok(first)
        }
    }

    /// Starts a step by counting it, before the screen is captured, so that a
    /// step whose capture fails is counted too.
    pub fn count_step(&mut self)
        requires
            old(self).steps() < usize::MAX,
        ensures
            final(self).steps() == old(self).steps() + 1,
            final(self).config() == old(self).config(),
            final(self).max_steps() == old(self).max_steps(),
            final(self).conversation() == old(self).conversation(),
    {
        self.step_count = self.step_count + 1;
    }

    /// Appends the observation of the screen that the step captured.
    pub fn observe(
        &mut self,
        task: Option<&str>,
        is_first: bool,
        current_app: &str,
        screenshot_base64: &str,
    )
        ensures
            final(self).steps() == old(self).steps(),
            final(self).config() == old(self).config(),
            final(self).max_steps() == old(self).max_steps(),
            final(self).conversation() == old(self).conversation() + observation_turns(
                is_first,
                prompt_of(old(self).config()),
                match task {
                    Some(t) => t@,
                    None => Seq::empty(),
                },
                current_app@,
                screenshot_base64@,
            ),
    {
        let info = MessageBuilder::build_screen_info(current_app);
        let ghost ctx0 = self.context@;
        if is_first {
            let prompt = self.agent_config.get_system_prompt();
            let sys = MessageBuilder::create_system_message(prompt.as_str());
            let t = match task {
                Some(t) => chars_of(t),
                None => Vec::new(),
            };
            let head = concat_chars(&t, &chars_of("\n\n"));
            let text = string_of(&concat_chars(&head, &chars_of(info.as_str())));
            let user = MessageBuilder::create_user_message(text.as_str(), Some(screenshot_base64));
            self.context.push(sys);
            self.context.push(user);
            assert(messages_view(self.context@) =~= messages_view(ctx0) + seq![sys@, user@]);
        } else {
            let text = concat_str("** Screen Info **\n\n", info.as_str());
            let user = MessageBuilder::create_user_message(text.as_str(), Some(screenshot_base64));
            self.context.push(user);
            assert(messages_view(self.context@) =~= messages_view(ctx0) + seq![user@]);
        }
    }

    /// The result of a step whose model call failed: the run ends.
    pub fn model_failed(&self, error: &str) -> (r: StepResult)
        ensures
            !r.success && r.finished && r.action is None && r.thinking@.len() == 0,
            r.message matches Some(m) && m@ == "Model error: "@ + error@,
    {
        StepResult {
            success: false,
            finished: true,
            action: None,
            thinking: String::new(),
            message: Some(concat_str("Model error: ", error)),
        }
    }

    /// Takes the model's reply: reads its action call (a call that cannot be
    /// read becomes a `finish` carrying the text), drops the screenshot from
    /// the last turn and appends the reply to the conversation.
    pub fn absorb_response(&mut self, thinking: &str, action_text: &str) -> (r: ActionRecord)
        ensures
            r@ == record_for(action_text@),
            final(self).conversation() == after_reply(
                old(self).conversation(),
                thinking@,
                action_text@,
            ),
            final(self).steps() == old(self).steps(),
            final(self).config() == old(self).config(),
            final(self).max_steps() == old(self).max_steps(),
    {
        let record = match parse_action(action_text) {
            Ok(a) => a,
            Err(_) => {
                let f = finish_action(Some(action_text));
                f
            },
        };
        let ghost ctx0 = messages_view(self.context@);
        if self.context.len() > 0 {
            let last = self.context.pop().unwrap();
            let stripped = MessageBuilder::remove_images_from_message(last);
            self.context.push(stripped);
            assert(messages_view(self.context@) =~= ctx0.drop_last().push(without_image(ctx0.last())));
        }
        let ghost ctx1 = messages_view(self.context@);
        let a = concat_str("<think>", thinking);
        let b = concat_str(a.as_str(), "</think><answer>");
        let c = concat_str(b.as_str(), action_text);
        let d = concat_str(c.as_str(), "</answer>");
        let reply = MessageBuilder::create_assistant_message(d.as_str());
        self.context.push(reply);
        assert(messages_view(self.context@) =~= ctx1.push(reply@));
        record
    }

    /// The result of a step from its record, the outcome of dispatching it,
    /// and the reasoning text.
    pub fn conclude_step(&self, action: ActionRecord, outcome: ActionResult, thinking: String) -> (r:
        StepResult)
        ensures
            r.success == outcome.success,
            r.finished == step_finished(action@, outcome@),
            r.thinking == thinking,
            r.action matches Some(a) && a@ == action@,
            opt_view(r.message) == match opt_view(outcome.message) {
                Some(m) => Some(m),
                None => text_message(action@),
            },
    {
        let finished = action.kind() == RecordKind::Finish || outcome.should_finish;
        let message = match outcome.message {
            Some(m) => Some(m),
            None => match action.get_str("message") {
                Some(m) => Some(string_of(&chars_of(m))),
                None => None,
            },
        };
        StepResult { success: outcome.success, finished, action: Some(action), thinking, message }
    }

    /// Whether the run goes on after a step.
    pub fn run_control(&self, result: &StepResult) -> (r: RunControl)
        ensures
            r@ == control_of(self.steps(), self.max_steps(), result.finished, opt_view(result.message)),
    {
        if result.finished {
            match &result.message {
                Some(m) => RunControl::Finished(string_of(&chars_of(m.as_str()))),
                None => RunControl::Finished(string_of(&chars_of("Task completed"))),
            }
        } else if self.step_count < self.agent_config.max_steps {
            RunControl::Continue
        } else {
            RunControl::Exhausted(string_of(&chars_of("Max steps reached")))
        }
    }

    /// The conversation so far.
    pub fn context(&self) -> (r: &Vec<ChatMessage>)
        ensures
            messages_view(r@) == self.conversation(),
    {
        &self.context
    }

    /// The number of steps of the current task.
    pub fn step_count(&self) -> (r: usize)
        ensures
            r == self.steps(),
    {
        self.step_count
    }

    pub fn agent_config(&self) -> (r: &AgentConfig)
        ensures
            *r == self.config(),
    {
        &self.agent_config
    }

    /// The dispatcher for this agent's device.
    pub fn action_handler(&self) -> (r: &ActionHandler) {
        &self.action_handler
    }
}

/// The model calls that a run makes after a step that leaves `count` steps
/// taken, when no step finishes the task.
pub open spec fn calls_after(count: nat, max: nat) -> nat
    decreases max - count,
{
    if control_of(count as int, max as int, false, None) is Continue {
        1 + calls_after(count + 1, max)
    } else {
        0
    }
}

/// With no step finishing the task, a run makes exactly `max_steps` model
/// calls (one when the budget is zero, for the first step is always taken)
/// and then reports the budget as spent, never calling the model once more.
pub proof fn lemma_step_budget(max: nat)
    ensures
        1 + calls_after(1, max) == if max >= 1 {
            max
        } else {
            1
        },
        control_of(
            if max >= 1 {
                max as int
            } else {
                1
            },
            max as int,
            false,
            None,
        ) == ControlModel::Exhausted("Max steps reached"@),
{
    lemma_calls_after(1, max);
}

proof fn lemma_calls_after(count: nat, max: nat)
    ensures
        calls_after(count, max) == if count < max {
            max - count
        } else {
            0
        },
    decreases max - count,
{
    if count < max {
        lemma_calls_after(count + 1, max);
    }
}

/// A reply whose action call cannot be read still ends the step as finished,
/// whatever the dispatch reported, with the text as the record's message.
pub proof fn lemma_unreadable_reply_finishes(action_text: Seq<char>, outcome: ResultModel)
    requires
        parse_result(action_text) is Err,
    ensures
        record_for(action_text).kind == RecordKind::Finish,
        text_message(record_for(action_text)) == Some(action_text),
        step_finished(record_for(action_text), outcome),
{
    let r = record_for(action_text);
    assert(r.entries.drop_last().len() == 0);
}

/// The unterminated call `do(action=` cannot be read; the step it ends is
/// finished, whatever the dispatch reported, rather than an error of the run.
pub proof fn lemma_unterminated_call_finishes(outcome: ResultModel)
    ensures
        parse_result("do(action="@) is Err,
        record_for("do(action="@).kind == RecordKind::Finish,
        step_finished(record_for("do(action="@), outcome),
{
    reveal_strlit("do(action=");
    reveal_strlit("do(");
    reveal_strlit("do(action=\"Type\"");
    reveal_strlit("do(action=\"Type_Name\"");
    let t = "do(action="@;
    assert(crate::text::trim_start(t) == t);
    assert(crate::text::trim_end(t) == t);
    assert(t.subrange(0, 3) =~= "do("@);
    assert(t.last() != ')');
    assert(parse_result(t) is Err);
    lemma_unreadable_reply_finishes(t, outcome);
}

} // verus!
