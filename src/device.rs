//! Device-side values: backend selection, connections, screenshots and
//! their storage, and the command prefix for a device.
use vstd::prelude::*;
use crate::i18n::{lower_of, lowercase};
use crate::record::digit_char;
use crate::text::{
    chars_of, concat_chars, contains, eq_lit, find_exec, lemma_find_from_bounds, slice, starts_with,
    starts_with_exec, string_of,
};

verus! {

/// The device backend.
#[derive(Debug, Clone, Copy, PartialEq, Eq, Structural)]
pub enum DeviceType {
    Adb,
}

impl Default for DeviceType {
    fn default() -> (r: DeviceType)
        ensures
            r == DeviceType::Adb,
    {
        DeviceType::Adb
    }
}

/// Selects the backend that device operations go to.
#[derive(Debug, Clone, Copy)]
pub struct DeviceFactory {
    device_type: DeviceType,
}

impl DeviceFactory {
    pub closed spec fn backend(&self) -> DeviceType {
        self.device_type
    }

    pub fn new(device_type: DeviceType) -> (r: DeviceFactory)
        ensures
            r.backend() == device_type,
    {
        DeviceFactory { device_type }
    }

    pub fn device_type(&self) -> (r: DeviceType)
        ensures
            r == self.backend(),
    {
        self.device_type
    }
}

impl Default for DeviceFactory {
    fn default() -> (r: DeviceFactory)
        ensures
            r.backend() == DeviceType::Adb,
    {
        DeviceFactory::new(DeviceType::Adb)
    }
}

/// How a device is attached.
#[derive(Debug, Clone, Copy, PartialEq, Eq, Structural)]
pub enum ConnectionType {
    Usb,
    Wifi,
    Remote,
}

/// A device as the bridge lists it.
#[derive(Debug, Clone)]
pub struct DeviceInfo {
    pub device_id: String,
    pub status: String,
    pub connection_type: ConnectionType,
    pub model: Option<String>,
    pub android_version: Option<String>,
}

/// Where the debug bridge program is.
#[derive(Debug, Clone)]
pub struct AdbConnection {
    pub adb_path: String,
}

impl AdbConnection {
    /// Uses `adb` from the search path.
    pub fn new() -> (r: AdbConnection)
        ensures
            r.adb_path@ == "adb"@,
    {
        AdbConnection { adb_path: string_of(&chars_of("adb")) }
    }

    pub fn with_path(adb_path: String) -> (r: AdbConnection)
        ensures
            r.adb_path == adb_path,
    {
        AdbConnection { adb_path }
    }
}

impl Default for AdbConnection {
    fn default() -> (r: AdbConnection)
        ensures
            r.adb_path@ == "adb"@,
    {
        AdbConnection::new()
    }
}

/// The address to connect to: with the default port 5555 when none is given.
pub open spec fn address_with_port(address: Seq<char>) -> Seq<char> {
    if contains(address, ":"@) {
        address
    } else {
        address + ":5555"@
    }
}

pub fn normalize_address(address: &str) -> (r: String)
    ensures
        r@ == address_with_port(address@),
{
    let a = chars_of(address);
    let colon = chars_of(":");
    match find_exec(&a, &colon) {
        Some(_) => {
            proof {
                lemma_find_from_bounds(a@, colon@, 0);
            }
            string_of(&a)
        },
        None => {
            proof {
                lemma_find_from_bounds(a@, colon@, 0);
            }
            string_of(&concat_chars(&a, &chars_of(":5555")))
        },
    }
}

/// The connection type that a listed device id shows: remote for an
/// address with a port, else USB.
pub open spec fn connection_type_of(device_id: Seq<char>) -> ConnectionType {
    if contains(device_id, ":"@) {
        ConnectionType::Remote
    } else {
        ConnectionType::Usb
    }
}

pub fn connection_type_for(device_id: &str) -> (r: ConnectionType)
    ensures
        r == connection_type_of(device_id@),
{
    let a = chars_of(device_id);
    let colon = chars_of(":");
    let found = find_exec(&a, &colon);
    proof {
        lemma_find_from_bounds(a@, colon@, 0);
    }
    match found {
        Some(_) => ConnectionType::Remote,
        None => ConnectionType::Usb,
    }
}

/// The command words that address a device: `adb`, then `-s` and the id
/// when a device is named.
pub open spec fn adb_prefix(device_id: Option<Seq<char>>) -> Seq<Seq<char>> {
    match device_id {
        Some(id) => seq!["adb"@, "-s"@, id],
        None => seq!["adb"@],
    }
}

pub fn get_adb_prefix(device_id: Option<&str>) -> (r: Vec<String>)
    ensures
        r@.map_values(|s: String| s@) == adb_prefix(
            match device_id {
                Some(d) => Some(d@),
                None => None,
            },
        ),
{
    let mut prefix: Vec<String> = Vec::new();
    prefix.push(string_of(&chars_of("adb")));
    if let Some(id) = device_id {
        prefix.push(string_of(&chars_of("-s")));
        prefix.push(string_of(&chars_of(id)));
    }
    assert(prefix@.map_values(|s: String| s@) =~= adb_prefix(
        match device_id {
            Some(d) => Some(d@),
            None => None,
        },
    ));
    prefix
}

/// A captured screen: base64-encoded PNG data and its size.
#[derive(Debug, Clone)]
pub struct Screenshot {
    pub base64_data: String,
    pub width: u32,
    pub height: u32,
    /// The screen refused capture, as on a payment page; the data is a black frame.
    pub is_sensitive: bool,
}

/// The capture tool reports a refused capture with `Status: -1` or `Failed`.
pub open spec fn capture_refused(output: Seq<char>) -> bool {
    contains(output, "Status: -1"@) || contains(output, "Failed"@)
}

pub fn screencap_refused(output: &str) -> (r: bool)
    ensures
        r == capture_refused(output@),
{
    let o = chars_of(output);
    let a = chars_of("Status: -1");
    let b = chars_of("Failed");
    let fa = find_exec(&o, &a);
    let fb = find_exec(&o, &b);
    proof {
        lemma_find_from_bounds(o@, a@, 0);
        lemma_find_from_bounds(o@, b@, 0);
    }
    fa.is_some() || fb.is_some()
}

/// The size of the black frame that stands in for a screen that cannot be captured.
pub const FALLBACK_WIDTH: u32 = 1080;

pub const FALLBACK_HEIGHT: u32 = 2400;

/// Keeps the screenshots of a session in numbered files.
#[derive(Debug, Clone)]
pub struct ScreenshotSaver {
    base_dir: String,
    session_dir: String,
    step_count: usize,
}

/// The decimal digits of `n`, at least `width` of them, zero-padded.
pub open spec fn padded_digits(n: nat, width: nat) -> Seq<char>
    decreases n + width,
{
    if width <= 1 && n < 10 {
        seq![digit_char(n as int)]
    } else {
        padded_digits(n / 10, if width > 0 {
            (width - 1) as nat
        } else {
            0
        }) + seq![digit_char((n % 10) as int)]
    }
}


impl ScreenshotSaver {
    /// A saver for a session directory inside `base_dir`.
    pub fn with_session(base_dir: String, session_dir: String) -> (r: ScreenshotSaver)
        ensures
            r.base_path() == base_dir@,
            r.session_path() == session_dir@,
            r.step() == 0,
    {
        ScreenshotSaver { base_dir, session_dir, step_count: 0 }
    }

    pub closed spec fn base_path(&self) -> Seq<char> {
        self.base_dir@
    }

    pub closed spec fn session_path(&self) -> Seq<char> {
        self.session_dir@
    }

    pub closed spec fn step(&self) -> int {
        self.step_count as int
    }

    pub fn session_dir(&self) -> (r: &str)
        ensures
            r@ == self.session_path(),
    {
        self.session_dir.as_str()
    }

    pub fn base_dir(&self) -> (r: &str)
        ensures
            r@ == self.base_path(),
    {
        self.base_dir.as_str()
    }

    pub fn step_count(&self) -> (r: usize)
        ensures
            r == self.step(),
    {
        self.step_count
    }

    pub fn reset_step_count(&mut self)
        ensures
            final(self).step() == 0,
            final(self).base_path() == old(self).base_path(),
            final(self).session_path() == old(self).session_path(),
    {
        self.step_count = 0;
    }

    /// Moves to a new session directory and restarts the numbering.
    pub fn start_session(&mut self, session_dir: String)
        ensures
            final(self).step() == 0,
            final(self).base_path() == old(self).base_path(),
            final(self).session_path() == session_dir@,
    {
        self.session_dir = session_dir;
        self.step_count = 0;
    }

    /// Counts one more screenshot and names its file from the time stamp:
    /// `step_NNN_<stamp>.png`, the number at least three digits wide.
    pub fn next_file_name(&mut self, stamp: &str) -> (r: String)
        requires
            old(self).step() < usize::MAX,
        ensures
            final(self).step() == old(self).step() + 1,
            final(self).base_path() == old(self).base_path(),
            final(self).session_path() == old(self).session_path(),
            r@ == "step_"@ + padded_digits(final(self).step() as nat, 3) + "_"@ + stamp@ + ".png"@,
    {
        self.step_count = self.step_count + 1;
        let digits = padded(self.step_count, 3);
        let a = concat_chars(&chars_of("step_"), &digits);
        let b = concat_chars(&a, &chars_of("_"));
        let c = concat_chars(&b, &chars_of(stamp));
        string_of(&concat_chars(&c, &chars_of(".png")))
    }
}

/// The decimal digits of `n`, zero-padded to at least `width`.
fn padded(n: usize, width: usize) -> (r: Vec<char>)
    ensures
        r@ == padded_digits(n as nat, width as nat),
    decreases n + width,
{
    if width <= 1 && n < 10 {
        let mut v: Vec<char> = Vec::new();
        v.push(char_of_digit(n));
        v
    } else {
        let mut v = padded(n / 10, if width > 0 {
            width - 1
        } else {
            0
        });
        v.push(char_of_digit(n % 10));
        v
    }
}

fn char_of_digit(d: usize) -> (c: char)
    requires
        d < 10,
    ensures
        c == digit_char(d as int),
{
    match d {
        0 => '0',
        1 => '1',
        2 => '2',
        3 => '3',
        4 => '4',
        5 => '5',
        6 => '6',
        7 => '7',
        8 => '8',
        _ => '9',
    }
}

/// The known apps and their Android packages.
pub open spec fn package_of(app: Seq<char>) -> Option<Seq<char>> {
    if app == "WeChat"@ {
        Some("com.tencent.mm"@)
    } else if app == "QQ"@ {
        Some("com.tencent.mobileqq"@)
    } else if app == "Settings"@ {
        Some("com.android.settings"@)
    } else if app == "Chrome"@ {
        Some("com.android.chrome"@)
    } else if app == "Camera"@ {
        Some("com.android.camera"@)
    } else if app == "Maps"@ {
        Some("com.google.android.apps.maps"@)
    } else {
        None
    }
}

/// The Android package of a known app.
pub fn get_package_name(app: &str) -> (r: Option<&'static str>)
    ensures
        r matches Some(p) ==> package_of(app@) == Some(p@),
        r is None ==> package_of(app@) is None,
{
    let a = chars_of(app);
    if eq_lit(&a, "WeChat") {
        Some("com.tencent.mm")
    } else if eq_lit(&a, "QQ") {
        Some("com.tencent.mobileqq")
    } else if eq_lit(&a, "Settings") {
        Some("com.android.settings")
    } else if eq_lit(&a, "Chrome") {
        Some("com.android.chrome")
    } else if eq_lit(&a, "Camera") {
        Some("com.android.camera")
    } else if eq_lit(&a, "Maps") {
        Some("com.google.android.apps.maps")
    } else {
        None
    }
}

/// The known app whose package a window-focus line names, taken in table order.
pub open spec fn app_in_focus_line(line: Seq<char>) -> Option<Seq<char>> {
    if contains(line, "mCurrentFocus"@) || contains(line, "mFocusedApp"@) {
        if contains(line, "com.tencent.mm"@) {
            Some("WeChat"@)
        } else if contains(line, "com.tencent.mobileqq"@) {
            Some("QQ"@)
        } else if contains(line, "com.android.settings"@) {
            Some("Settings"@)
        } else if contains(line, "com.android.chrome"@) {
            Some("Chrome"@)
        } else if contains(line, "com.android.camera"@) {
            Some("Camera"@)
        } else if contains(line, "com.google.android.apps.maps"@) {
            Some("Maps"@)
        } else {
            None
        }
    } else {
        None
    }
}

fn contains_lit(s: &Vec<char>, p: &str) -> (r: bool)
    ensures
        r == contains(s@, p@),
{
    let pc = chars_of(p);
    let f = find_exec(s, &pc);
    proof {
        lemma_find_from_bounds(s@, pc@, 0);
    }
    f.is_some()
}

/// The known app in front, from one line of the window manager's report.
pub fn app_for_focus_line(line: &str) -> (r: Option<&'static str>)
    ensures
        r matches Some(a) ==> app_in_focus_line(line@) == Some(a@),
        r is None ==> app_in_focus_line(line@) is None,
{
    let l = chars_of(line);
    if !(contains_lit(&l, "mCurrentFocus") || contains_lit(&l, "mFocusedApp")) {
        return None;
    }
    if contains_lit(&l, "com.tencent.mm") {
        Some("WeChat")
    } else if contains_lit(&l, "com.tencent.mobileqq") {
        Some("QQ")
    } else if contains_lit(&l, "com.android.settings") {
        Some("Settings")
    } else if contains_lit(&l, "com.android.chrome") {
        Some("Chrome")
    } else if contains_lit(&l, "com.android.camera") {
        Some("Camera")
    } else if contains_lit(&l, "com.google.android.apps.maps") {
        Some("Maps")
    } else {
        None
    }
}

/// The names of the known apps.
pub fn list_supported_apps() -> (r: Vec<&'static str>)
    ensures
        r@.len() == 6,
        forall|i: int| 0 <= i < r@.len() ==> package_of(#[trigger] r@[i]@) is Some,
{
    let mut v: Vec<&'static str> = Vec::new();
    v.push("WeChat");
    v.push("QQ");
    v.push("Settings");
    v.push("Chrome");
    v.push("Camera");
    v.push("Maps");
    v
}

/// How long a swipe lasts: a thousandth of the squared distance in pixels,
/// kept between one and two seconds.
pub open spec fn swipe_duration(sx: int, sy: int, ex: int, ey: int) -> int {
    let d = ((sx - ex) * (sx - ex) + (sy - ey) * (sy - ey)) / 1000;
    if d < 1000 {
        1000
    } else if d > 2000 {
        2000
    } else {
        d
    }
}

pub fn swipe_duration_ms(start_x: i32, start_y: i32, end_x: i32, end_y: i32) -> (r: u32)
    ensures
        r as int == swipe_duration(start_x as int, start_y as int, end_x as int, end_y as int),
{
    let dx: i128 = start_x as i128 - end_x as i128;
    let dy: i128 = start_y as i128 - end_y as i128;
    assert(0 <= dx * dx <= 0x1_0000_0000_0000_0000) by (nonlinear_arith)
        requires
            -0x1_0000_0000 <= dx <= 0x1_0000_0000,
    ;
    assert(0 <= dy * dy <= 0x1_0000_0000_0000_0000) by (nonlinear_arith)
        requires
            -0x1_0000_0000 <= dy <= 0x1_0000_0000,
    ;
    let d: i128 = (dx * dx + dy * dy) / 1000;
    if d < 1000 {
        1000
    } else if d > 2000 {
        2000
    } else {
        d as u32
    }
}

/// The input method that types through broadcasts.
pub open spec fn automation_ime() -> Seq<char> {
    "com.android.adbkeyboard/.AdbIME"@
}

/// Whether the current input method has to be switched before typing.
pub fn needs_ime_switch(current_ime: &str) -> (r: bool)
    ensures
        r == !contains(current_ime@, automation_ime()),
{
    !contains_lit(&chars_of(current_ime), "com.android.adbkeyboard/.AdbIME")
}

/// The bridge's reply to a connect request reports success, in any case.
pub open spec fn connect_succeeded(output: Seq<char>) -> bool {
    contains(lower_of(output), "connected"@)
}

pub fn connect_reply_ok(output: &str) -> (r: bool)
    ensures
        r == connect_succeeded(output@),
{
    let l = lowercase(output);
    contains_lit(&chars_of(l.as_str()), "connected")
}

/// The bridge restarts in TCP/IP mode when it says so or exits successfully.
pub fn tcpip_reply_ok(output: &str, exit_ok: bool) -> (r: bool)
    ensures
        r == (contains(lower_of(output@), "restarting"@) || exit_ok),
{
    let l = lowercase(output);
    contains_lit(&chars_of(l.as_str()), "restarting") || exit_ok
}

/// The text after the first `:` of `part`, up to the next `:`.
pub open spec fn second_field(part: Seq<char>) -> Seq<char> {
    let a = first_colon(part, 0);
    let rest = part.subrange(a + 1, part.len() as int);
    rest.subrange(0, first_colon(rest, 0))
}

/// The first index at or after `i` that holds `:`, else the length.
pub open spec fn first_colon(s: Seq<char>, i: int) -> int
    decreases s.len() - i,
{
    if i >= s.len() {
        s.len() as int
    } else if s[i] == ':' {
        i
    } else {
        first_colon(s, i + 1)
    }
}

/// The model named among the extra words of a device line: the first word
/// that starts with `model:`.
pub open spec fn model_among(parts: Seq<Seq<char>>, from: int) -> Option<Seq<char>>
    decreases parts.len() - from,
{
    if from < 0 || from >= parts.len() {
        None
    } else if starts_with(parts[from], "model:"@) {
        Some(second_field(parts[from]))
    } else {
        model_among(parts, from + 1)
    }
}

fn first_colon_exec(s: &Vec<char>) -> (r: usize)
    ensures
        r as int == first_colon(s@, 0),
        r <= s@.len(),
{
    let mut i: usize = 0;
    while i < s.len() && s[i] != ':'
        invariant
            i <= s@.len(),
            first_colon(s@, 0) == first_colon(s@, i as int),
        decreases s@.len() - i,
    {
        i = i + 1;
    }
    i
}

/// A listed device from the words of one line of the bridge's device list:
/// its id, its state, and the model if a `model:` word names one.
pub fn device_from_words(parts: &Vec<String>) -> (r: Option<DeviceInfo>)
    ensures
        r is None <==> parts@.len() < 2,
        r matches Some(d) ==> {
            &&& d.device_id@ == parts@[0]@
            &&& d.status@ == parts@[1]@
            &&& d.connection_type == connection_type_of(parts@[0]@)
            &&& d.android_version is None
            &&& match d.model {
                Some(m) => model_among(parts@.map_values(|p: String| p@), 2) == Some(m@),
                None => model_among(parts@.map_values(|p: String| p@), 2) is None,
            }
        },
{
    if parts.len() < 2 {
        return None;
    }
    let ghost words = parts@.map_values(|p: String| p@);
    let tag = chars_of("model:");
    let mut i: usize = 2;
    while i < parts.len()
        invariant
            2 <= i <= parts@.len(),
            words == parts@.map_values(|p: String| p@),
            tag@ == "model:"@,
            model_among(words, 2) == model_among(words, i as int),
        decreases parts@.len() - i,
    {
        let w = chars_of(parts[i].as_str());
        assert(words[i as int] == w@);
        if starts_with_exec(&w, &tag) {
            let a = first_colon_exec(&w);
            proof {
                reveal_strlit("model:");
                assert(w@.subrange(0, 6)[5] == ':');
                assert(a < w@.len()) by {
                    lemma_first_colon_at_most(w@, 0, 5);
                }
            }
            let wl = w.len();
            assert(a < wl);
            let rest = slice(&w, a + 1, wl);
            let b = first_colon_exec(&rest);
            let m = slice(&rest, 0, b);
            assert(model_among(words, i as int) == Some(second_field(w@)));
            assert(m@ == second_field(w@));
            return Some(DeviceInfo {
                device_id: string_of(&chars_of(parts[0].as_str())),
                status: string_of(&chars_of(parts[1].as_str())),
                connection_type: connection_type_for(parts[0].as_str()),
                model: Some(string_of(&m)),
                android_version: None,
            });
        }
        i = i + 1;
    }
    assert(words.len() == parts@.len());
    assert(model_among(words, 2) is None);
    Some(DeviceInfo {
        device_id: string_of(&chars_of(parts[0].as_str())),
        status: string_of(&chars_of(parts[1].as_str())),
        connection_type: connection_type_for(parts[0].as_str()),
        model: None,
        android_version: None,
    })
}

proof fn lemma_first_colon_at_most(s: Seq<char>, i: int, k: int)
    requires
        0 <= i <= k < s.len(),
        s[k] == ':',
    ensures
        first_colon(s, i) <= k,
    decreases k - i,
{
    if s[i] != ':' {
        lemma_first_colon_at_most(s, i + 1, k);
    }
}

/// The device to use from a listing: the one with the given id, or the
/// first one when no id is given.
pub open spec fn chosen_device(ids: Seq<Seq<char>>, device_id: Option<Seq<char>>) -> Option<int> {
    match device_id {
        Some(id) => first_index_of(ids, id, 0),
        None => if ids.len() > 0 {
            Some(0)
        } else {
            None
        },
    }
}

/// The first index at or after `i` that holds `x`.
pub open spec fn first_index_of(s: Seq<Seq<char>>, x: Seq<char>, i: int) -> Option<int>
    decreases s.len() - i,
{
    if i < 0 || i >= s.len() {
        None
    } else if s[i] == x {
        Some(i)
    } else {
        first_index_of(s, x, i + 1)
    }
}

pub open spec fn ids_of(devices: Seq<DeviceInfo>) -> Seq<Seq<char>> {
    devices.map_values(|d: DeviceInfo| d.device_id@)
}

fn same_text(a: &str, b: &str) -> (r: bool)
    ensures
        r == (a@ == b@),
{
    eq_lit(&chars_of(a), b)
}

pub open spec fn opt_text(o: Option<&str>) -> Option<Seq<char>> {
    match o {
        Some(d) => Some(d@),
        None => None,
    }
}

/// The index of the device to use from a listing.
pub fn select_device(devices: &Vec<DeviceInfo>, device_id: Option<&str>) -> (r: Option<usize>)
    ensures
        r matches Some(i) ==> chosen_device(ids_of(devices@), opt_text(device_id)) == Some(
            i as int,
        ),
        r is None ==> chosen_device(ids_of(devices@), opt_text(device_id)) is None,
{
    match device_id {
        None => if devices.len() > 0 {
            Some(0)
        } else {
            None
        },
        Some(id) => {
            let ghost ids = ids_of(devices@);
            let mut i: usize = 0;
            while i < devices.len()
                invariant
                    i <= devices@.len(),
                    device_id == Some(id),
                    ids == ids_of(devices@),
                    first_index_of(ids, id@, 0) == first_index_of(ids, id@, i as int),
                decreases devices@.len() - i,
            {
                assert(ids[i as int] == devices@[i as int].device_id@);
                if same_text(devices[i].device_id.as_str(), id) {
                    return Some(i);
                }
                i = i + 1;
            }
            None
        },
    }
}

/// A listed device is ready when its state is `device`; with an id given,
/// that device must be the ready one.
pub open spec fn ready_among(devices: Seq<DeviceInfo>, device_id: Option<Seq<char>>) -> bool {
    exists|i: int|
        0 <= i < devices.len() && (#[trigger] devices[i]).status@ == "device"@ && match device_id {
            Some(id) => devices[i].device_id@ == id,
            None => true,
        }
}

pub fn is_connected_in(devices: &Vec<DeviceInfo>, device_id: Option<&str>) -> (r: bool)
    ensures
        r == ready_among(devices@, match device_id {
            Some(d) => Some(d@),
            None => None,
        }),
{
    let ghost want = match device_id {
        Some(d) => Some(d@),
        None => None::<Seq<char>>,
    };
    let mut i: usize = 0;
    while i < devices.len()
        invariant
            i <= devices@.len(),
            want == match device_id {
                Some(d) => Some(d@),
                None => None::<Seq<char>>,
            },
            forall|k: int|
                0 <= k < i ==> !((#[trigger] devices@[k]).status@ == "device"@ && match want {
                    Some(id) => devices@[k].device_id@ == id,
                    None => true,
                }),
        decreases devices@.len() - i,
    {
        let ready = same_text(devices[i].status.as_str(), "device");
        let matches_id = match device_id {
            Some(id) => same_text(devices[i].device_id.as_str(), id),
            None => true,
        };
        if ready && matches_id {
            return true;
        }
        i = i + 1;
    }
    false
}

/// The address that a route line names after its `src` word.
pub open spec fn route_source(words: Seq<Seq<char>>, i: int) -> Option<int>
    decreases words.len() - i,
{
    if i < 0 || i + 1 >= words.len() {
        None
    } else if words[i] == "src"@ {
        Some(i + 1)
    } else {
        route_source(words, i + 1)
    }
}

pub open spec fn words_view(words: Seq<String>) -> Seq<Seq<char>> {
    words.map_values(|w: String| w@)
}

/// The index of the word that follows the first `src` word of a route line.
pub fn route_source_word(words: &Vec<String>) -> (r: Option<usize>)
    ensures
        r matches Some(i) ==> route_source(words_view(words@), 0) == Some(i as int),
        r is None ==> route_source(words_view(words@), 0) is None,
{
    let ghost ws = words_view(words@);
    let mut i: usize = 0;
    while words.len() > 0 && i < words.len() - 1
        invariant
            ws == words_view(words@),
            route_source(ws, 0) == route_source(ws, i as int),
        decreases words@.len() - i,
    {
        assert(ws[i as int] == words@[i as int]@);
        if same_text(words[i].as_str(), "src") {
            return Some(i + 1);
        }
        i = i + 1;
    }
    None
}

/// The address of an `inet` line of an interface listing: the second word
/// up to its first `/`, when that is not empty.
pub open spec fn inet_address_of(words: Seq<Seq<char>>) -> Option<Seq<char>> {
    if words.len() >= 2 && words[0] == "inet"@ {
        let w = words[1];
        let a = first_colon_like(w, '/', 0);
        if a > 0 {
            Some(w.subrange(0, a))
        } else {
            None
        }
    } else {
        None
    }
}

/// The first index at or after `i` that holds `c`, else the length.
pub open spec fn first_colon_like(s: Seq<char>, c: char, i: int) -> int
    decreases s.len() - i,
{
    if i >= s.len() {
        s.len() as int
    } else if s[i] == c {
        i
    } else {
        first_colon_like(s, c, i + 1)
    }
}

pub fn inet_address(words: &Vec<String>) -> (r: Option<String>)
    ensures
        r matches Some(a) ==> inet_address_of(words_view(words@)) == Some(a@),
        r is None ==> inet_address_of(words_view(words@)) is None,
{
    let ghost ws = words_view(words@);
    if words.len() < 2 {
        return None;
    }
    assert(ws[0] == words@[0]@ && ws[1] == words@[1]@);
    if !same_text(words[0].as_str(), "inet") {
        return None;
    }
    let w = chars_of(words[1].as_str());
    let mut a: usize = 0;
    while a < w.len() && w[a] != '/'
        invariant
            a <= w@.len(),
            first_colon_like(w@, '/', 0) == first_colon_like(w@, '/', a as int),
        decreases w@.len() - a,
    {
        a = a + 1;
    }
    if a > 0 {
        Some(string_of(&slice(&w, 0, a)))
    } else {
        None
    }
}

} // verus!
