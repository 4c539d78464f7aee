//! From an action record and the screen size to a device command or an outcome.
use vstd::prelude::*;
use crate::record::{lookup, text_of, ActionRecord, RecordKind, RecordModel};
use crate::text::{chars_of, concat_str, string_of, trim, trim_exec};
use crate::value::{
    is_float_exec, is_float_text, ActionValue, ItemModel, ListItem, ValueModel,
};
use crate::splitter::{remove_all, remove_all_exec};
use crate::text::eq_lit;

verus! {

/// The outcome of one dispatched record.
#[derive(Debug, Clone)]
pub struct ActionResult {
    pub success: bool,
    pub should_finish: bool,
    pub message: Option<String>,
    pub requires_confirmation: bool,
}

pub struct ResultModel {
    pub success: bool,
    pub should_finish: bool,
    pub message: Option<Seq<char>>,
    pub requires_confirmation: bool,
}

pub open spec fn opt_view(m: Option<String>) -> Option<Seq<char>> {
    match m {
        Some(s) => Some(s@),
        None => None,
    }
}

impl View for ActionResult {
    type V = ResultModel;

    open spec fn view(&self) -> ResultModel {
        ResultModel {
            success: self.success,
            should_finish: self.should_finish,
            message: opt_view(self.message),
            requires_confirmation: self.requires_confirmation,
        }
    }
}

pub open spec fn success_model() -> ResultModel {
    ResultModel { success: true, should_finish: false, message: None, requires_confirmation: false }
}

pub open spec fn failure_model(m: Seq<char>) -> ResultModel {
    ResultModel {
        success: false,
        should_finish: false,
        message: Some(m),
        requires_confirmation: false,
    }
}

pub open spec fn finish_model(m: Option<Seq<char>>) -> ResultModel {
    ResultModel { success: true, should_finish: true, message: m, requires_confirmation: false }
}

impl ActionResult {
    /// A successful, non-finishing outcome.
    pub fn success() -> (r: ActionResult)
        ensures
            r@ == success_model(),
    {
        ActionResult {
            success: true,
            should_finish: false,
            message: None,
            requires_confirmation: false,
        }
    }

    /// A failed, non-finishing outcome with its message.
    pub fn failure(message: String) -> (r: ActionResult)
        ensures
            r@ == failure_model(message@),
    {
        ActionResult {
            success: false,
            should_finish: false,
            message: Some(message),
            requires_confirmation: false,
        }
    }

    /// A successful outcome that ends the task.
    pub fn finish(message: Option<String>) -> (r: ActionResult)
        ensures
            r@ == finish_model(opt_view(message)),
    {
        ActionResult { success: true, should_finish: true, message, requires_confirmation: false }
    }
}

/// A device effect, with coordinates already in pixels.
#[derive(Debug, Clone)]
pub enum DeviceCommand {
    Launch { app: String },
    Tap { x: i32, y: i32 },
    DoubleTap { x: i32, y: i32 },
    LongPress { x: i32, y: i32, duration_ms: u32 },
    Swipe { start_x: i32, start_y: i32, end_x: i32, end_y: i32 },
    /// Switch to the automation keyboard, clear the field, type, restore the keyboard.
    TypeText { text: String },
    Back,
    Home,
    /// Pause for the given number of seconds, written as a decimal literal.
    Wait { seconds: String },
    TakeOver { message: String },
}

pub enum CommandModel {
    Launch { app: Seq<char> },
    Tap { x: int, y: int },
    DoubleTap { x: int, y: int },
    LongPress { x: int, y: int, duration_ms: int },
    Swipe { start_x: int, start_y: int, end_x: int, end_y: int },
    TypeText { text: Seq<char> },
    Back,
    Home,
    Wait { seconds: Seq<char> },
    TakeOver { message: Seq<char> },
}

impl View for DeviceCommand {
    type V = CommandModel;

    open spec fn view(&self) -> CommandModel {
        match self {
            DeviceCommand::Launch { app } => CommandModel::Launch { app: app@ },
            DeviceCommand::Tap { x, y } => CommandModel::Tap { x: *x as int, y: *y as int },
            DeviceCommand::DoubleTap { x, y } => CommandModel::DoubleTap {
                x: *x as int,
                y: *y as int,
            },
            DeviceCommand::LongPress { x, y, duration_ms } => CommandModel::LongPress {
                x: *x as int,
                y: *y as int,
                duration_ms: *duration_ms as int,
            },
            DeviceCommand::Swipe { start_x, start_y, end_x, end_y } => CommandModel::Swipe {
                start_x: *start_x as int,
                start_y: *start_y as int,
                end_x: *end_x as int,
                end_y: *end_y as int,
            },
            DeviceCommand::TypeText { text } => CommandModel::TypeText { text: text@ },
            DeviceCommand::Back => CommandModel::Back,
            DeviceCommand::Home => CommandModel::Home,
            DeviceCommand::Wait { seconds } => CommandModel::Wait { seconds: seconds@ },
            DeviceCommand::TakeOver { message } => CommandModel::TakeOver { message: message@ },
        }
    }
}

/// What to do with a record: report an outcome at once, run a device
/// command, or first ask the user to confirm a sensitive command.
#[derive(Debug, Clone)]
pub enum ActionPlan {
    Done(ActionResult),
    Run(DeviceCommand),
    Confirm { message: String, command: DeviceCommand },
}

pub enum PlanModel {
    Done(ResultModel),
    Run(CommandModel),
    Confirm { message: Seq<char>, command: CommandModel },
}

impl View for ActionPlan {
    type V = PlanModel;

    open spec fn view(&self) -> PlanModel {
        match self {
            ActionPlan::Done(r) => PlanModel::Done(r@),
            ActionPlan::Run(c) => PlanModel::Run(c@),
            ActionPlan::Confirm { message, command } => PlanModel::Confirm {
                message: message@,
                command: command@,
            },
        }
    }
}

/// `p / 1000`, truncated toward zero.
pub open spec fn per_mille(p: int) -> int {
    if p >= 0 {
        p / 1000
    } else {
        -((-p) / 1000)
    }
}

pub open spec fn clamp_i32(v: int) -> int {
    if v < i32::MIN {
        i32::MIN as int
    } else if v > i32::MAX {
        i32::MAX as int
    } else {
        v
    }
}

/// The pixel for normalized coordinate `n` (0 to 1000) on an axis of `dim` pixels.
pub open spec fn to_pixel(n: int, dim: int) -> int {
    clamp_i32(per_mille(n * dim))
}

/// Converts a normalized coordinate to pixels: `n * dim / 1000`, truncated toward zero.
pub fn convert(n: i64, dim: u32) -> (r: i32)
    ensures
        r as int == to_pixel(n as int, dim as int),
{
    let a: i128 = n as i128;
    let b: i128 = dim as i128;
    assert(-0x1_0000_0000_0000_0000_0000_0000 <= a * b <= 0x1_0000_0000_0000_0000_0000_0000)
        by (nonlinear_arith)
        requires
            -0x8000_0000_0000_0000 <= a <= 0x7fff_ffff_ffff_ffff,
            0 <= b <= 0xffff_ffff,
    ;
    let p: i128 = a * b;
    let q: i128 = if p >= 0 {
        p / 1000
    } else {
        -((-p) / 1000)
    };
    if q < i32::MIN as i128 {
        i32::MIN
    } else if q > i32::MAX as i128 {
        i32::MAX
    } else {
        q as i32
    }
}

/// Pixel conversion maps the ends of the normalized range to the ends of the
/// axis and never decreases as the normalized coordinate grows.
pub proof fn lemma_to_pixel_linear(dim: u32, a: int, b: int)
    requires
        a <= b,
    ensures
        to_pixel(0, dim as int) == 0,
        to_pixel(1000, dim as int) == dim as int || (dim as int > i32::MAX && to_pixel(
            1000,
            dim as int,
        ) == i32::MAX),
        to_pixel(a, dim as int) <= to_pixel(b, dim as int),
{
    let d = dim as int;
    assert(1000 * d / 1000 == d) by (nonlinear_arith);
    assert(a * d <= b * d) by (nonlinear_arith)
        requires
            a <= b,
            d >= 0,
    ;
    let pa = a * d;
    let pb = b * d;
    assert(per_mille(pa) <= per_mille(pb)) by {
        if pa >= 0 {
            assert(pa / 1000 <= pb / 1000) by (nonlinear_arith)
                requires
                    0 <= pa <= pb,
            ;
        } else if pb >= 0 {
            assert((-pa) / 1000 >= 0) by (nonlinear_arith)
                requires
                    pa < 0,
            ;
            assert(pb / 1000 >= 0) by (nonlinear_arith)
                requires
                    pb >= 0,
            ;
        } else {
            assert((-pb) / 1000 <= (-pa) / 1000) by (nonlinear_arith)
                requires
                    0 < -pb <= -pa,
            ;
        }
    }
    assert(0 * d == 0);
}

/// The integers of a list value, in order; other elements are skipped.
pub open spec fn ints_of(items: Seq<ItemModel>) -> Seq<int>
    decreases items.len(),
{
    if items.len() == 0 {
        Seq::empty()
    } else {
        let prev = ints_of(items.drop_last());
        match items.last() {
            ItemModel::Int(n) => prev.push(n),
            _ => prev,
        }
    }
}

/// The integers of the list under `key`, if the value is a list.
pub open spec fn coords_of(r: RecordModel, key: Seq<char>) -> Option<Seq<int>> {
    match lookup(r.entries, key) {
        Some(ValueModel::List(items)) => Some(ints_of(items)),
        _ => None,
    }
}

pub open spec fn text_field(r: RecordModel, key: Seq<char>) -> Option<Seq<char>> {
    match lookup(r.entries, key) {
        Some(ValueModel::Text(s)) => Some(s),
        _ => None,
    }
}

pub open spec fn text_or(r: RecordModel, key: Seq<char>, default: Seq<char>) -> Seq<char> {
    match text_field(r, key) {
        Some(s) => s,
        None => default,
    }
}

/// An outcome for a failed command, with the device layer's wording.
pub open spec fn command_failed(m: Seq<char>) -> ResultModel {
    failure_model("Action failed: Command execution failed: "@ + m)
}

/// The seconds of a wait: the duration text without the words `seconds` and
/// `second`, trimmed, if that is a decimal literal; else one second.
pub open spec fn wait_seconds(duration: Seq<char>) -> Seq<char> {
    let rest = trim(remove_all(remove_all(duration, "seconds"@), "second"@));
    if is_float_text(rest) {
        rest
    } else {
        "1"@
    }
}

/// The plan for a point action (tap, double tap, long press).
pub open spec fn point_plan(
    r: RecordModel,
    name: Seq<char>,
    w: int,
    h: int,
) -> PlanModel {
    match coords_of(r, "element"@) {
        None => PlanModel::Done(command_failed("No element coordinates"@)),
        Some(c) => if c.len() < 2 {
            PlanModel::Done(command_failed("Invalid element coordinates"@))
        } else {
            let x = to_pixel(c[0], w);
            let y = to_pixel(c[1], h);
            let command = if name == "Tap"@ {
                CommandModel::Tap { x, y }
            } else if name == "Double Tap"@ {
                CommandModel::DoubleTap { x, y }
            } else {
                CommandModel::LongPress { x, y, duration_ms: 3000 }
            };
            match text_field(r, "message"@) {
                Some(m) => PlanModel::Confirm { message: m, command },
                None => PlanModel::Run(command),
            }
        },
    }
}

pub open spec fn swipe_plan(r: RecordModel, w: int, h: int) -> PlanModel {
    match (coords_of(r, "start"@), coords_of(r, "end"@)) {
        (None, _) => PlanModel::Done(command_failed("Missing start coordinates"@)),
        (_, None) => PlanModel::Done(command_failed("Missing end coordinates"@)),
        (Some(s), Some(e)) => if s.len() < 2 || e.len() < 2 {
            PlanModel::Done(command_failed("Invalid swipe coordinates"@))
        } else {
            PlanModel::Run(
                CommandModel::Swipe {
                    start_x: to_pixel(s[0], w),
                    start_y: to_pixel(s[1], h),
                    end_x: to_pixel(e[0], w),
                    end_y: to_pixel(e[1], h),
                },
            )
        },
    }
}

/// The plan for a record on a screen of `w` by `h` pixels.
pub open spec fn plan_of(r: RecordModel, w: int, h: int) -> PlanModel {
    if r.kind == RecordKind::Finish {
        PlanModel::Done(finish_model(text_field(r, "message"@)))
    } else {
        let name = text_or(r, "action"@, Seq::empty());
        if name == "Launch"@ {
            match text_field(r, "app"@) {
                Some(app) => PlanModel::Run(CommandModel::Launch { app }),
                None => PlanModel::Done(command_failed("No app name specified"@)),
            }
        } else if name == "Tap"@ || name == "Double Tap"@ || name == "Long Press"@ {
            point_plan(r, name, w, h)
        } else if name == "Type"@ || name == "Type_Name"@ {
            PlanModel::Run(CommandModel::TypeText { text: text_or(r, "text"@, Seq::empty()) })
        } else if name == "Swipe"@ {
            swipe_plan(r, w, h)
        } else if name == "Back"@ {
            PlanModel::Run(CommandModel::Back)
        } else if name == "Home"@ {
            PlanModel::Run(CommandModel::Home)
        } else if name == "Wait"@ {
            PlanModel::Run(
                CommandModel::Wait { seconds: wait_seconds(text_or(r, "duration"@, "1 seconds"@)) },
            )
        } else if name == "Take_over"@ {
            PlanModel::Run(
                CommandModel::TakeOver {
                    message: text_or(r, "message"@, "User intervention required"@),
                },
            )
        } else if name == "Note"@ || name == "Call_API"@ {
            PlanModel::Done(success_model())
        } else if name == "Interact"@ {
            PlanModel::Done(
                ResultModel {
                    success: true,
                    should_finish: false,
                    message: Some("User interaction required"@),
                    requires_confirmation: false,
                },
            )
        } else {
            PlanModel::Done(command_failed("Unknown action: "@ + name))
        }
    }
}

/// The outcome when the user declines a sensitive command: failed, and the task ends.
pub open spec fn declined_model() -> ResultModel {
    ResultModel {
        success: false,
        should_finish: true,
        message: Some("User cancelled sensitive operation"@),
        requires_confirmation: false,
    }
}

/// The outcome of a command, given what the device reported: `Ok(found)`
/// (`found` is false only for an app that is not installed) or an error text.
pub open spec fn outcome_of(c: CommandModel, reported: Result<bool, Seq<char>>) -> ResultModel {
    match reported {
        Err(e) => failure_model("Action failed: "@ + e),
        Ok(found) => match c {
            CommandModel::Launch { app } => if found {
                success_model()
            } else {
                failure_model("App not found: "@ + app)
            },
            _ => success_model(),
        },
    }
}

/// Dispatches action records for one device.
pub struct ActionHandler {
    device_id: Option<String>,
}

fn failed_command(m: &str) -> (r: ActionPlan)
    ensures
        r@ == PlanModel::Done(command_failed(m@)),
{
    ActionPlan::Done(ActionResult::failure(concat_str("Action failed: Command execution failed: ", m)))
}

fn ints_exec(items: &Vec<ListItem>) -> (r: Vec<i64>)
    ensures
        r@.map_values(|n: i64| n as int) == ints_of(crate::value::items_view(items@)),
{
    let mut r: Vec<i64> = Vec::new();
    let mut i: usize = 0;
    while i < items.len()
        invariant
            i <= items@.len(),
            r@.map_values(|n: i64| n as int) == ints_of(
                crate::value::items_view(items@.subrange(0, i as int)),
            ),
        decreases items@.len() - i,
    {
        let ghost pre = crate::value::items_view(items@.subrange(0, i as int));
        let ghost next = crate::value::items_view(items@.subrange(0, i + 1));
        assert(next.drop_last() =~= pre);
        assert(next.last() == items@[i as int]@);
        let ghost r0 = r@;
        if let ListItem::Int(n) = items[i] {
            r.push(n);
            assert(r@.map_values(|n: i64| n as int) =~= r0.map_values(|n: i64| n as int).push(
                n as int,
            ));
        }
        i = i + 1;
        assert(r@.map_values(|n: i64| n as int) =~= ints_of(next));
    }
    assert(items@.subrange(0, items@.len() as int) =~= items@);
    r
}

impl ActionHandler {
    pub fn new(device_id: Option<String>) -> (r: ActionHandler)
        ensures
            opt_view(r.device_id()) == opt_view(device_id),
    {
        ActionHandler { device_id }
    }

    pub closed spec fn device_id(&self) -> Option<String> {
        self.device_id
    }

    /// The device this handler acts on, if one was named.
    pub fn device(&self) -> (r: Option<&str>)
        ensures
            r matches Some(s) ==> opt_view(self.device_id()) == Some(s@),
            r is None ==> self.device_id() is None,
    {
        match &self.device_id {
            Some(s) => Some(s.as_str()),
            None => None,
        }
    }

    /// Converts the first two normalized coordinates of `element` to pixels.
    pub fn convert_relative_to_absolute(&self, element: &[i64], screen_width: u32, screen_height: u32) -> (r: (
        i32,
        i32,
    ))
        requires
            element@.len() >= 2,
        ensures
            r.0 as int == to_pixel(element@[0] as int, screen_width as int),
            r.1 as int == to_pixel(element@[1] as int, screen_height as int),
    {
        (convert(element[0], screen_width), convert(element[1], screen_height))
    }
}

/// The integers of the list under `key`, if the value is a list.
fn coords_exec(record: &ActionRecord, key: &str) -> (r: Option<Vec<i64>>)
    ensures
        r matches Some(v) ==> coords_of(record@, key@) == Some(v@.map_values(|n: i64| n as int)),
        r is None ==> coords_of(record@, key@) is None,
{
    match record.get(key) {
        Some(ActionValue::List(items)) => Some(ints_exec(items)),
        _ => None,
    }
}

proof fn lemma_ints_index(v: Seq<i64>, i: int)
    requires
        0 <= i < v.len(),
    ensures
        v.map_values(|n: i64| n as int)[i] == v[i] as int,
{
}

/// The plan for a point action (tap, double tap, long press).
fn point_plan_exec(record: &ActionRecord, name: &Vec<char>, w: u32, h: u32) -> (r: ActionPlan)
    requires
        name@ == "Tap"@ || name@ == "Double Tap"@ || name@ == "Long Press"@,
    ensures
        r@ == point_plan(record@, name@, w as int, h as int),
{
    match coords_exec(record, "element") {
        None => failed_command("No element coordinates"),
        Some(c) => {
            if c.len() < 2 {
                return failed_command("Invalid element coordinates");
            }
            proof {
                lemma_ints_index(c@, 0);
                lemma_ints_index(c@, 1);
            }
            let x = convert(c[0], w);
            let y = convert(c[1], h);
            let command = if eq_lit(name, "Tap") {
                DeviceCommand::Tap { x, y }
            } else if eq_lit(name, "Double Tap") {
                DeviceCommand::DoubleTap { x, y }
            } else {
                DeviceCommand::LongPress { x, y, duration_ms: 3000 }
            };
            match record.get_str("message") {
                Some(m) => ActionPlan::Confirm { message: text_of(m), command },
                None => ActionPlan::Run(command),
            }
        },
    }
}

fn swipe_plan_exec(record: &ActionRecord, w: u32, h: u32) -> (r: ActionPlan)
    ensures
        r@ == swipe_plan(record@, w as int, h as int),
{
    let start = coords_exec(record, "start");
    let end = coords_exec(record, "end");
    match (start, end) {
        (None, _) => failed_command("Missing start coordinates"),
        (_, None) => failed_command("Missing end coordinates"),
        (Some(s), Some(e)) => {
            if s.len() < 2 || e.len() < 2 {
                return failed_command("Invalid swipe coordinates");
            }
            proof {
                lemma_ints_index(s@, 0);
                lemma_ints_index(s@, 1);
                lemma_ints_index(e@, 0);
                lemma_ints_index(e@, 1);
            }
            ActionPlan::Run(
                DeviceCommand::Swipe {
                    start_x: convert(s[0], w),
                    start_y: convert(s[1], h),
                    end_x: convert(e[0], w),
                    end_y: convert(e[1], h),
                },
            )
        },
    }
}

/// The seconds of a wait, as `wait_seconds` describes.
pub fn wait_seconds_exec(duration: &str) -> (r: String)
    ensures
        r@ == wait_seconds(duration@),
{
    proof {
        reveal_strlit("seconds");
        reveal_strlit("second");
    }
    let d = chars_of(duration);
    let a = remove_all_exec(&d, "seconds");
    let b = remove_all_exec(&a, "second");
    let rest = trim_exec(&b);
    if is_float_exec(&rest) {
        string_of(&rest)
    } else {
        text_of("1")
    }
}

/// The text under `key`, or `default` when there is none.
fn text_or_exec(record: &ActionRecord, key: &str, default: &str) -> (r: String)
    ensures
        r@ == text_or(record@, key@, default@),
{
    match record.get_str(key) {
        Some(s) => text_of(s),
        None => text_of(default),
    }
}

impl ActionHandler {
    /// Decides what a record asks for on a screen of the given size.
    ///
    /// A `finish` record ends the task with its message. A tap, double tap or
    /// long press that carries a `message` is sensitive and must be confirmed
    /// before it runs. Missing
    /// or malformed arguments and unknown action names give a failed outcome.
    pub fn plan(&self, action: &ActionRecord, screen_width: u32, screen_height: u32) -> (r:
        ActionPlan)
        ensures
            r@ == plan_of(action@, screen_width as int, screen_height as int),
    {
        if action.kind() == RecordKind::Finish {
            let m = match action.get_str("message") {
                Some(s) => Some(text_of(s)),
                None => None,
            };
            return ActionPlan::Done(ActionResult::finish(m));
        }
        let name = match action.get_str("action") {
            Some(s) => chars_of(s),
            None => Vec::new(),
        };
        assert(name@ == text_or(action@, "action"@, Seq::empty()));
        if eq_lit(&name, "Launch") {
            match action.get_str("app") {
                Some(app) => ActionPlan::Run(DeviceCommand::Launch { app: text_of(app) }),
                None => failed_command("No app name specified"),
            }
        } else if eq_lit(&name, "Tap") || eq_lit(&name, "Double Tap") || eq_lit(&name, "Long Press") {
            point_plan_exec(action, &name, screen_width, screen_height)
        } else if eq_lit(&name, "Type") || eq_lit(&name, "Type_Name") {
            let text = match action.get_str("text") {
                Some(t) => text_of(t),
                None => String::new(),
            };
            ActionPlan::Run(DeviceCommand::TypeText { text })
        } else if eq_lit(&name, "Swipe") {
            swipe_plan_exec(action, screen_width, screen_height)
        } else if eq_lit(&name, "Back") {
            ActionPlan::Run(DeviceCommand::Back)
        } else if eq_lit(&name, "Home") {
            ActionPlan::Run(DeviceCommand::Home)
        } else if eq_lit(&name, "Wait") {
            let d = text_or_exec(action, "duration", "1 seconds");
            ActionPlan::Run(DeviceCommand::Wait { seconds: wait_seconds_exec(d.as_str()) })
        } else if eq_lit(&name, "Take_over") {
            ActionPlan::Run(
                DeviceCommand::TakeOver {
                    message: text_or_exec(action, "message", "User intervention required"),
                },
            )
        } else if eq_lit(&name, "Note") || eq_lit(&name, "Call_API") {
            ActionPlan::Done(ActionResult::success())
        } else if eq_lit(&name, "Interact") {
            ActionPlan::Done(
                ActionResult {
                    success: true,
                    should_finish: false,
                    message: Some(text_of("User interaction required")),
                    requires_confirmation: false,
                },
            )
        } else {
            let m = concat_str("Unknown action: ", &string_of(&name).as_str());
            ActionPlan::Done(
                ActionResult::failure(
                    concat_str("Action failed: Command execution failed: ", m.as_str()),
                ),
            )
        }
    }

    /// What follows the user's answer on a sensitive command: the command
    /// runs if confirmed; if declined it never runs and the task ends.
    pub fn after_confirmation(&self, confirmed: bool, command: DeviceCommand) -> (r: ActionPlan)
        ensures
            confirmed ==> r@ == PlanModel::Run(command@),
            !confirmed ==> r@ == PlanModel::Done(declined_model()),
    {
        if confirmed {
            ActionPlan::Run(command)
        } else {
            ActionPlan::Done(
                ActionResult {
                    success: false,
                    should_finish: true,
                    message: Some(text_of("User cancelled sensitive operation")),
                    requires_confirmation: false,
                },
            )
        }
    }

    /// The outcome of a command from what the device reported.
    pub fn outcome(&self, command: &DeviceCommand, reported: Result<bool, String>) -> (r:
        ActionResult)
        ensures
            r@ == outcome_of(
                command@,
                match reported {
                    Ok(b) => Ok(b),
                    Err(e) => Err(e@),
                },
            ),
    {
        match reported {
            Err(e) => ActionResult::failure(concat_str("Action failed: ", e.as_str())),
            Ok(found) => match command {
                DeviceCommand::Launch { app } => if found {
                    ActionResult::success()
                } else {
                    ActionResult::failure(concat_str("App not found: ", app.as_str()))
                },
                _ => ActionResult::success(),
            },
        }
    }
}

/// A tap, double tap or long press that carries a message is held for
/// confirmation before any device effect, with the gesture it asked for;
/// once declined, the outcome is a failure that ends the task, and no
/// command is left to run.
pub proof fn lemma_declined_point_action_never_runs(r: RecordModel, w: int, h: int)
    requires
        r.kind == RecordKind::Do,
        text_or(r, "action"@, Seq::empty()) == "Tap"@ || text_or(r, "action"@, Seq::empty())
            == "Double Tap"@ || text_or(r, "action"@, Seq::empty()) == "Long Press"@,
        coords_of(r, "element"@) matches Some(c) && c.len() >= 2,
        text_field(r, "message"@) is Some,
    ensures
        plan_of(r, w, h) matches PlanModel::Confirm { command, .. } && (if text_or(
            r,
            "action"@,
            Seq::empty(),
        ) == "Tap"@ {
            command is Tap
        } else if text_or(r, "action"@, Seq::empty()) == "Double Tap"@ {
            command is DoubleTap
        } else {
            command is LongPress
        }),
        declined_model() matches ResultModel { success: false, should_finish: true, .. },
{
    reveal_strlit("Tap");
    reveal_strlit("Double Tap");
    reveal_strlit("Long Press");
    reveal_strlit("Launch");
    assert("Tap"@.len() != "Launch"@.len());
    assert("Double Tap"@.len() != "Launch"@.len());
    assert("Long Press"@.len() != "Launch"@.len());
}

} // verus!
