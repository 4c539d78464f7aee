use phone_agent::dispatch::{convert, ActionHandler, ActionPlan, ActionResult, DeviceCommand};
use phone_agent::parser::parse_action;
use phone_agent::record::finish_action;

fn plan_of(call: &str, w: u32, h: u32) -> ActionPlan {
    let handler = ActionHandler::new(None);
    handler.plan(&parse_action(call).unwrap(), w, h)
}

fn done_message(p: &ActionPlan) -> Option<String> {
    match p {
        ActionPlan::Done(r) => r.message.clone(),
        _ => None,
    }
}

#[test]
fn test_action_result_success() {
    let result = ActionResult::success();
    assert!(result.success);
    assert!(!result.should_finish);
}

#[test]
fn test_action_result_finish() {
    let result = ActionResult::finish(Some("Done".to_string()));
    assert!(result.success);
    assert!(result.should_finish);
    assert_eq!(result.message, Some("Done".to_string()));
}

#[test]
fn failure_keeps_message() {
    let r = ActionResult::failure("bad".to_string());
    assert!(!r.success);
    assert!(!r.should_finish);
    assert_eq!(r.message, Some("bad".to_string()));
}

#[test]
fn convert_ends_and_order() {
    for w in [0u32, 1, 720, 1080, 2400] {
        assert_eq!(convert(0, w), 0);
        assert_eq!(convert(1000, w), w as i32);
        let mut prev = convert(0, w);
        for n in 1..=1000 {
            let c = convert(n, w);
            assert!(c >= prev);
            prev = c;
        }
    }
    assert_eq!(convert(500, 1080), 540);
    assert_eq!(convert(290, 100), 29);
    assert_eq!(convert(333, 1000), 333);
    assert_eq!(convert(-5, 1000), -5);
    assert_eq!(convert(-1, 999), 0);
    assert_eq!(convert(i64::MAX, u32::MAX), i32::MAX);
    assert_eq!(convert(i64::MIN, u32::MAX), i32::MIN);
}

#[test]
fn convert_pair() {
    let h = ActionHandler::new(Some("dev".to_string()));
    assert_eq!(h.convert_relative_to_absolute(&[500, 250], 1080, 2400), (540, 600));
    assert_eq!(h.device(), Some("dev"));
}

#[test]
fn tap_plans_pixels() {
    match plan_of("do(action=\"Tap\", element=[500, 300])", 1080, 2400) {
        ActionPlan::Run(DeviceCommand::Tap { x, y }) => assert_eq!((x, y), (540, 720)),
        other => panic!("unexpected plan {:?}", other),
    }
}

#[test]
fn declined_tap_never_runs() {
    let handler = ActionHandler::new(None);
    let record = parse_action("do(action=\"Tap\", element=[10, 20], message=\"Pay 5 dollars\")").unwrap();
    let mut taps = 0;
    let mut asked = Vec::new();
    let mut plan = handler.plan(&record, 1000, 1000);
    let outcome = loop {
        match plan {
            ActionPlan::Confirm { message, command } => {
                asked.push(message);
                plan = handler.after_confirmation(false, command);
            }
            ActionPlan::Run(command) => {
                taps += 1;
                break handler.outcome(&command, Ok(true));
            }
            ActionPlan::Done(r) => break r,
        }
    };
    assert_eq!(asked, vec!["Pay 5 dollars".to_string()]);
    assert_eq!(taps, 0);
    assert!(!outcome.success);
    assert!(outcome.should_finish);
    assert_eq!(outcome.message, Some("User cancelled sensitive operation".to_string()));
}

#[test]
fn confirmed_tap_runs() {
    let handler = ActionHandler::new(None);
    match handler.after_confirmation(true, DeviceCommand::Tap { x: 1, y: 2 }) {
        ActionPlan::Run(DeviceCommand::Tap { x, y }) => assert_eq!((x, y), (1, 2)),
        other => panic!("unexpected plan {:?}", other),
    }
}

#[test]
fn swipe_plans_pixels() {
    match plan_of("do(action=\"Swipe\", start=[100,500], end=[100,200])", 1000, 2000) {
        ActionPlan::Run(DeviceCommand::Swipe { start_x, start_y, end_x, end_y }) => {
            assert_eq!((start_x, start_y, end_x, end_y), (100, 1000, 100, 400))
        }
        other => panic!("unexpected plan {:?}", other),
    }
}

#[test]
fn long_press_and_double_tap() {
    match plan_of("do(action=\"Long Press\", element=[1000, 0])", 720, 1280) {
        ActionPlan::Run(DeviceCommand::LongPress { x, y, duration_ms }) => {
            assert_eq!((x, y, duration_ms), (720, 0, 3000))
        }
        other => panic!("unexpected plan {:?}", other),
    }
    match plan_of("do(action=\"Double Tap\", element=[1, 2])", 1000, 1000) {
        ActionPlan::Run(DeviceCommand::DoubleTap { x, y }) => assert_eq!((x, y), (1, 2)),
        other => panic!("unexpected plan {:?}", other),
    }
}

#[test]
fn argument_errors() {
    assert_eq!(
        done_message(&plan_of("do(action=\"Tap\")", 10, 10)),
        Some("Action failed: Command execution failed: No element coordinates".to_string())
    );
    assert_eq!(
        done_message(&plan_of("do(action=\"Tap\", element=[5, x])", 10, 10)),
        Some("Action failed: Command execution failed: Invalid element coordinates".to_string())
    );
    assert_eq!(
        done_message(&plan_of("do(action=\"Swipe\", end=[1,2])", 10, 10)),
        Some("Action failed: Command execution failed: Missing start coordinates".to_string())
    );
    assert_eq!(
        done_message(&plan_of("do(action=\"Swipe\", start=[1,2])", 10, 10)),
        Some("Action failed: Command execution failed: Missing end coordinates".to_string())
    );
    assert_eq!(
        done_message(&plan_of("do(action=\"Swipe\", start=[1], end=[1,2])", 10, 10)),
        Some("Action failed: Command execution failed: Invalid swipe coordinates".to_string())
    );
    assert_eq!(
        done_message(&plan_of("do(action=\"Launch\")", 10, 10)),
        Some("Action failed: Command execution failed: No app name specified".to_string())
    );
    assert_eq!(
        done_message(&plan_of("do(action=\"Fly\")", 10, 10)),
        Some("Action failed: Command execution failed: Unknown action: Fly".to_string())
    );
}

#[test]
fn simple_actions() {
    assert!(matches!(plan_of("do(action=\"Back\")", 1, 1), ActionPlan::Run(DeviceCommand::Back)));
    assert!(matches!(plan_of("do(action=\"Home\")", 1, 1), ActionPlan::Run(DeviceCommand::Home)));
    match plan_of("do(action=\"Launch\", app=\"WeChat\")", 1, 1) {
        ActionPlan::Run(DeviceCommand::Launch { app }) => assert_eq!(app, "WeChat"),
        other => panic!("unexpected plan {:?}", other),
    }
    match plan_of("do(action=\"Type\", text=\"hi, there\")", 1, 1) {
        ActionPlan::Run(DeviceCommand::TypeText { text }) => assert_eq!(text, "hi, there"),
        other => panic!("unexpected plan {:?}", other),
    }
    match plan_of("do(action=\"Note\")", 1, 1) {
        ActionPlan::Done(r) => assert!(r.success && !r.should_finish && r.message.is_none()),
        other => panic!("unexpected plan {:?}", other),
    }
    match plan_of("do(action=\"Interact\")", 1, 1) {
        ActionPlan::Done(r) => {
            assert!(r.success && !r.should_finish);
            assert_eq!(r.message, Some("User interaction required".to_string()));
        }
        other => panic!("unexpected plan {:?}", other),
    }
    match plan_of("do(action=\"Take_over\")", 1, 1) {
        ActionPlan::Run(DeviceCommand::TakeOver { message }) => {
            assert_eq!(message, "User intervention required")
        }
        other => panic!("unexpected plan {:?}", other),
    }
}

#[test]
fn wait_durations() {
    let secs = |call: &str| match plan_of(call, 1, 1) {
        ActionPlan::Run(DeviceCommand::Wait { seconds }) => seconds,
        other => panic!("unexpected plan {:?}", other),
    };
    assert_eq!(secs("do(action=\"Wait\", duration=\"2 seconds\")"), "2");
    assert_eq!(secs("do(action=\"Wait\", duration=\"1.5 second\")"), "1.5");
    assert_eq!(secs("do(action=\"Wait\", duration=\"soon\")"), "1");
    assert_eq!(secs("do(action=\"Wait\")"), "1");
}

#[test]
fn finish_record_ends() {
    let handler = ActionHandler::new(None);
    match handler.plan(&finish_action(Some("all done")), 1, 1) {
        ActionPlan::Done(r) => {
            assert!(r.success && r.should_finish);
            assert_eq!(r.message, Some("all done".to_string()));
        }
        other => panic!("unexpected plan {:?}", other),
    }
}

#[test]
fn device_reports() {
    let h = ActionHandler::new(None);
    let launch = DeviceCommand::Launch { app: "Maps".to_string() };
    assert_eq!(h.outcome(&launch, Ok(false)).message, Some("App not found: Maps".to_string()));
    assert!(h.outcome(&launch, Ok(true)).success);
    let r = h.outcome(&DeviceCommand::Back, Err("Connection timeout: 5s".to_string()));
    assert!(!r.success && !r.should_finish);
    assert_eq!(r.message, Some("Action failed: Connection timeout: 5s".to_string()));
}

#[test]
fn declined_gestures_never_run() {
    let handler = ActionHandler::new(None);
    for name in ["Double Tap", "Long Press"] {
        let call = format!("do(action=\"{}\", element=[10, 20], message=\"Delete all?\")", name);
        let record = parse_action(&call).unwrap();
        let mut gestures = 0;
        let outcome = match handler.plan(&record, 1000, 1000) {
            ActionPlan::Confirm { message, command } => {
                assert_eq!(message, "Delete all?");
                match handler.after_confirmation(false, command) {
                    ActionPlan::Done(r) => r,
                    ActionPlan::Run(c) => {
                        gestures += 1;
                        handler.outcome(&c, Ok(true))
                    }
                    other => panic!("unexpected plan {:?}", other),
                }
            }
            other => panic!("unexpected plan {:?}", other),
        };
        assert_eq!(gestures, 0);
        assert!(!outcome.success && outcome.should_finish);
    }
    match plan_of("do(action=\"Long Press\", element=[1, 2], message=\"ok?\")", 1000, 1000) {
        ActionPlan::Confirm { command: DeviceCommand::LongPress { x, y, duration_ms }, .. } => {
            assert_eq!((x, y, duration_ms), (1, 2, 3000))
        }
        other => panic!("unexpected plan {:?}", other),
    }
}
