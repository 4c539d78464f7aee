use phone_agent::agent::{get_system_prompt, AgentConfig, PhoneAgent, RunControl, StepResult};
use phone_agent::dispatch::{ActionPlan, ActionResult};
use phone_agent::i18n::Language;
use phone_agent::messages::{MessageBuilder, Role};
use phone_agent::record::RecordKind;
use phone_agent::splitter::StreamSplitter;

#[test]
fn test_agent_config_default() {
    let config = AgentConfig::default();
    assert_eq!(config.max_steps, 100);
    assert_eq!(config.lang, Language::Chinese);
    assert!(config.verbose);
}

#[test]
fn test_agent_config_builder() {
    let config = AgentConfig::new()
        .with_max_steps(50)
        .with_device_id("device123")
        .with_lang(Language::English)
        .with_verbose(false);

    assert_eq!(config.max_steps, 50);
    assert_eq!(config.device_id, Some("device123".to_string()));
    assert_eq!(config.lang, Language::English);
    assert!(!config.verbose);
}

#[test]
fn test_step_result() {
    let result = StepResult {
        success: true,
        finished: false,
        action: None,
        thinking: "Test thinking".to_string(),
        message: Some("Test message".to_string()),
    };

    assert!(result.success);
    assert!(!result.finished);
    assert_eq!(result.thinking, "Test thinking");
}

#[test]
fn system_prompt_custom_or_builtin() {
    let c = AgentConfig::new().with_system_prompt("Be brief.").with_screenshot_dir("/tmp/shots");
    assert_eq!(c.get_system_prompt(), "Be brief.");
    assert_eq!(c.screenshot_dir, Some("/tmp/shots".to_string()));
    let d = AgentConfig::new().with_lang(Language::English);
    assert_eq!(d.get_system_prompt(), get_system_prompt(Language::English));
    assert!(d.get_system_prompt().contains("do(action="));
}

/// Runs one step the way the application loop does, with a scripted model reply.
fn step(agent: &mut PhoneAgent, task: Option<&str>, first: bool, reply: Result<&str, &str>) -> StepResult {
    agent.count_step();
    agent.observe(task, first, "WeChat", "AAAA");
    let text = match reply {
        Err(e) => return agent.model_failed(e),
        Ok(t) => t,
    };
    let mut sp = StreamSplitter::new();
    for ch in text.chars() {
        sp.feed(&ch.to_string());
    }
    let split = sp.finish();
    let record = agent.absorb_response(&split.thinking, &split.action);
    let outcome = match agent.action_handler().plan(&record, 1080, 2400) {
        ActionPlan::Done(r) => r,
        ActionPlan::Run(c) => agent.action_handler().outcome(&c, Ok(true)),
        ActionPlan::Confirm { command, .. } => {
            match agent.action_handler().after_confirmation(true, command) {
                ActionPlan::Run(c) => agent.action_handler().outcome(&c, Ok(true)),
                ActionPlan::Done(r) => r,
                ActionPlan::Confirm { .. } => ActionResult::failure("loop".to_string()),
            }
        }
    };
    agent.conclude_step(record, outcome, split.thinking)
}

#[test]
fn first_step_builds_context() {
    let mut agent = PhoneAgent::new(AgentConfig::new().with_system_prompt("SYS"));
    assert_eq!(agent.check_step(None), Err("Task is required for the first step".to_string()));
    assert_eq!(agent.check_step(Some("open maps")), Ok(true));
    let r = step(&mut agent, Some("open maps"), true, Ok("I tap. do(action=\"Tap\", element=[500, 500])"));
    assert!(r.success && !r.finished);
    assert_eq!(r.thinking, "I tap.");
    assert_eq!(agent.step_count(), 1);
    let ctx = agent.context();
    assert_eq!(ctx.len(), 3);
    assert_eq!(ctx[0].role, Role::System);
    assert_eq!(ctx[0].text, "SYS");
    assert_eq!(ctx[1].role, Role::User);
    assert_eq!(ctx[1].text, "open maps\n\n{\"current_app\":\"WeChat\"}");
    assert_eq!(ctx[1].image_url, None);
    assert_eq!(ctx[2].role, Role::Assistant);
    assert_eq!(
        ctx[2].text,
        "<think>I tap.</think><answer>do(action=\"Tap\", element=[500, 500])</answer>"
    );
    assert_eq!(agent.check_step(None), Ok(false));
    agent.count_step();
    agent.observe(None, false, "Maps", "BBBB");
    assert_eq!(agent.step_count(), 2);
    let ctx = agent.context();
    assert_eq!(ctx[3].text, "** Screen Info **\n\n{\"current_app\":\"Maps\"}");
    assert_eq!(ctx[3].image_url, Some("data:image/png;base64,BBBB".to_string()));
}

#[test]
fn malformed_reply_ends_run() {
    let mut agent = PhoneAgent::new(AgentConfig::new());
    let r = step(&mut agent, Some("t"), true, Ok("do(action="));
    assert!(r.finished);
    let rec = r.action.clone().unwrap();
    assert_eq!(rec.kind(), RecordKind::Finish);
    assert_eq!(r.message, Some("do(action=".to_string()));
    match agent.run_control(&r) {
        RunControl::Finished(m) => assert_eq!(m, "do(action="),
        other => panic!("unexpected control {:?}", other),
    }
}

#[test]
fn model_error_ends_run() {
    let mut agent = PhoneAgent::new(AgentConfig::new());
    let r = step(&mut agent, Some("t"), true, Err("timeout"));
    assert!(!r.success && r.finished);
    assert_eq!(r.message, Some("Model error: timeout".to_string()));
}

#[test]
fn finish_reply_reports_message() {
    let mut agent = PhoneAgent::new(AgentConfig::new());
    let r = step(&mut agent, Some("t"), true, Ok("done. finish(message=\"All set\")"));
    assert!(r.finished);
    match agent.run_control(&r) {
        RunControl::Finished(m) => assert_eq!(m, "All set"),
        other => panic!("unexpected control {:?}", other),
    }
    let silent = StepResult { success: true, finished: true, action: None, thinking: String::new(), message: None };
    match agent.run_control(&silent) {
        RunControl::Finished(m) => assert_eq!(m, "Task completed"),
        other => panic!("unexpected control {:?}", other),
    }
}

#[test]
fn budget_stops_after_max_steps() {
    for max in [0usize, 1, 3] {
        let mut agent = PhoneAgent::new(AgentConfig::new().with_max_steps(max));
        agent.reset();
        let mut model_calls = 0;
        let mut first = true;
        let last = loop {
            model_calls += 1;
            let r = step(&mut agent, Some("t"), first, Ok("do(action=\"Back\")"));
            first = false;
            match agent.run_control(&r) {
                RunControl::Continue => continue,
                other => break other,
            }
        };
        assert_eq!(model_calls, max.max(1));
        match last {
            RunControl::Exhausted(m) => assert_eq!(m, "Max steps reached"),
            other => panic!("unexpected control {:?}", other),
        }
    }
}

#[test]
fn reset_clears_state() {
    let mut agent = PhoneAgent::new(AgentConfig::new());
    step(&mut agent, Some("t"), true, Ok("do(action=\"Home\")"));
    agent.reset();
    assert_eq!(agent.step_count(), 0);
    assert!(agent.context().is_empty());
    assert_eq!(agent.agent_config().max_steps, 100);
}

#[test]
fn test_build_screen_info() {
    let info = MessageBuilder::build_screen_info("WeChat");
    assert!(info.contains("WeChat"));
    assert!(info.contains("current_app"));
}

#[test]
fn screen_info_escapes_quotes() {
    assert_eq!(MessageBuilder::build_screen_info("a\"b"), "{\"current_app\":\"a\\\"b\"}");
}

#[test]
fn images_removed_from_user_turns_only() {
    let u = MessageBuilder::create_user_message("hi", Some("QQ"));
    assert_eq!(u.image_url, Some("data:image/png;base64,QQ".to_string()));
    let stripped = MessageBuilder::remove_images_from_message(u);
    assert_eq!(stripped.image_url, None);
    assert_eq!(stripped.text, "hi");
    let a = MessageBuilder::create_assistant_message("ok");
    assert_eq!(MessageBuilder::remove_images_from_message(a.clone()).text, "ok");
    let s = MessageBuilder::create_system_message("sys");
    assert_eq!(s.role, Role::System);
}

#[test]
fn screen_info_wraps_json_name() {
    assert_eq!(MessageBuilder::screen_info_from_json("\"X\""), "{\"current_app\":\"X\"}");
}

#[test]
fn screen_info_escapes_controls() {
    assert_eq!(
        MessageBuilder::build_screen_info("a\u{1}\n\\é"),
        "{\"current_app\":\"a\\u0001\\n\\\\é\"}"
    );
}
