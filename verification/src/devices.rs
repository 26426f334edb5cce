//! Simulator and emulator discovery: the commands the studio runs against
//! `adb` and `simctl`, and how their output becomes devices and settings.
//!
//! Running the tools is left to the caller; this module builds the argument
//! lists and reads what the tools print.
use vstd::prelude::*;

use crate::endpoint::{split_chars, split_on, views};
use crate::assistant::{field, field_of, text_field, text_field_of};
use crate::json::{JsonTree, JsonValue, lemma_members_of_push, lemma_trees_of_push, members_of, tree_of, trees_of};
use crate::model::{Device, DeviceCapabilities, DevicePlatform, SCHEMA_VERSION};
use crate::order::{seq_lt, str_lt, lemma_seq_lt_transitive};
use crate::text::{
    chars_of, concat2, decimal, extend_chars, extend_str, has_prefix, is_white_space,
    owned, seq_lower, slice_chars, starts_with_chars, string_of, trim, trim_chars,
    is_space_char,
};

verus! {

#[derive(Debug, Clone)]
pub struct AndroidDeviceProvider;

#[derive(Debug, Clone)]
pub struct IosDeviceProvider;

#[derive(Debug, Clone)]
pub struct DeviceError {
    pub code: String,
    pub message: String,
    pub recoverable: bool,
}

/// The code under which a missing tool of a platform is reported.
pub open spec fn tool_unavailable_code(platform: DevicePlatform) -> Seq<char> {
    match platform {
        DevicePlatform::Android => "android_tool_unavailable"@,
        DevicePlatform::Ios => "ios_tool_unavailable"@,
    }
}

impl DeviceError {
    /// A tool of the platform (`adb`, `xcrun`) could not be started.
    pub fn tool_unavailable(platform: DevicePlatform, tool: &str, detail: &str) -> (e: Self)
        ensures
            e.code@ == tool_unavailable_code(platform),
            e.message@ == tool@ + " is unavailable: "@ + detail@,
            e.recoverable,
    {
        let code = match platform {
            DevicePlatform::Android => owned("android_tool_unavailable"),
            DevicePlatform::Ios => owned("ios_tool_unavailable"),
        };
        let mut m = chars_of(tool);
        extend_str(&mut m, " is unavailable: ");
        extend_str(&mut m, detail);
        DeviceError { code, message: string_of(&m), recoverable: true }
    }

    /// A tool ran but reported failure; `detail` is what it wrote to stderr.
    pub fn command_failed(code: &str, detail: &str) -> (e: Self)
        ensures
            e.code@ == code@,
            e.message@ == detail@,
            e.recoverable,
    {
        DeviceError { code: owned(code), message: owned(detail), recoverable: true }
    }

    /// A tool's output could not be read.
    pub fn parse_failed(code: &str, detail: &str) -> (e: Self)
        ensures
            e.code@ == code@,
            e.message@ == detail@,
            e.recoverable,
    {
        DeviceError { code: owned(code), message: owned(detail), recoverable: true }
    }
}

pub open spec fn string_views(v: Seq<String>) -> Seq<Seq<char>> {
    v.map_values(|s: String| s@)
}

// ---------------------------------------------------------------------------
// Android: adb commands
// ---------------------------------------------------------------------------

/// The adb serial of a device id: ids of Android devices carry an
/// `android:` prefix in front of the serial.
pub open spec fn serial_of(device_id: Seq<char>) -> Seq<char> {
    if has_prefix(device_id, "android:"@) {
        device_id.skip(8)
    } else {
        device_id
    }
}

/// Arguments of `adb -s <serial> shell <args..>`.
pub open spec fn shell_args(serial: Seq<char>, args: Seq<Seq<char>>) -> Seq<Seq<char>> {
    seq!["-s"@, serial, "shell"@] + args
}

/// The value adb reports for the global HTTP proxy setting, if one is set:
/// an empty value, `null` and `:0` all mean that no proxy is configured.
pub open spec fn proxy_setting(output: Seq<char>) -> Option<Seq<char>> {
    let value = trim(output);
    if value.len() == 0 || value == "null"@ || value == ":0"@ {
        None
    } else {
        Some(value)
    }
}

fn normalize_serial(device_id: &str) -> (r: Vec<char>)
    ensures
        r@ == serial_of(device_id@),
{
    let v = chars_of(device_id);
    let prefix = chars_of("android:");
    proof {
        reveal_strlit("android:");
    }
    if starts_with_chars(&v, &prefix) {
        slice_chars(&v, 8, v.len())
    } else {
        v
    }
}

fn push_str_arg(args: &mut Vec<String>, s: &str)
    ensures
        string_views(final(args)@) == string_views(old(args)@).push(s@),
{
    args.push(owned(s));
    assert(string_views(args@) == string_views(old(args)@).push(s@));
}

fn push_chars_arg(args: &mut Vec<String>, v: &Vec<char>)
    ensures
        string_views(final(args)@) == string_views(old(args)@).push(v@),
{
    args.push(string_of(v));
    assert(string_views(args@) == string_views(old(args)@).push(v@));
}

impl AndroidDeviceProvider {
    /// The adb arguments that run `args` in a shell on the device.
    pub fn shell_command(&self, device_id: &str, args: &Vec<String>) -> (r: Vec<String>)
        ensures
            string_views(r@) == shell_args(serial_of(device_id@), string_views(args@)),
    {
        let serial = normalize_serial(device_id);
        let mut r: Vec<String> = Vec::new();
        push_str_arg(&mut r, "-s");
        push_chars_arg(&mut r, &serial);
        push_str_arg(&mut r, "shell");
        assert(string_views(r@) == seq!["-s"@, serial_of(device_id@), "shell"@]);
        assert(string_views(args@).take(0) == Seq::<Seq<char>>::empty());
        let mut i: usize = 0;
        while i < args.len()
            invariant
                i <= args.len(),
                string_views(r@) == seq!["-s"@, serial_of(device_id@), "shell"@] + string_views(
                    args@,
                ).take(i as int),
            decreases args.len() - i,
        {
            let ghost old_r = r@;
            let a = args[i].clone();
            r.push(a);
            assert(string_views(r@) == string_views(old_r).push(a@)) by {
                assert(r@ == old_r.push(a));
            }
            assert(string_views(args@).take(i + 1) == string_views(args@).take(i as int).push(
                args@[i as int]@,
            ));
            i = i + 1;
        }
        assert(string_views(args@).take(args.len() as int) == string_views(args@));
        r
    }

    /// The arguments of the command that reads the device's HTTP proxy.
    pub fn get_http_proxy_command(&self, device_id: &str) -> (r: Vec<String>)
        ensures
            string_views(r@) == shell_args(
                serial_of(device_id@),
                seq!["settings"@, "get"@, "global"@, "http_proxy"@],
            ),
    {
        let mut args: Vec<String> = Vec::new();
        push_str_arg(&mut args, "settings");
        push_str_arg(&mut args, "get");
        push_str_arg(&mut args, "global");
        push_str_arg(&mut args, "http_proxy");
        self.shell_command(device_id, &args)
    }

    /// The HTTP proxy configured on the device, read from what the command
    /// of `get_http_proxy_command` printed.
    pub fn get_http_proxy(&self, output: &str) -> (r: Option<String>)
        ensures
            r matches Some(p) ==> proxy_setting(output@) == Some(p@),
            r is None <==> proxy_setting(output@) is None,
    {
        let v = chars_of(output);
        let t = trim_chars(&v);
        let null = chars_of("null");
        let zero = chars_of(":0");
        proof {
            reveal_strlit("null");
            reveal_strlit(":0");
        }
        if t.len() == 0 || crate::text::chars_eq(&t, &null) || crate::text::chars_eq(&t, &zero) {
            None
        } else {
            Some(string_of(&t))
        }
    }

    /// The arguments of the command that routes the device through the
    /// proxy at `host:port`.
    pub fn set_http_proxy(&self, device_id: &str, host: &str, port: u16) -> (r: Vec<String>)
        ensures
            string_views(r@) == shell_args(
                serial_of(device_id@),
                seq![
                    "settings"@,
                    "put"@,
                    "global"@,
                    "http_proxy"@,
                    host@ + ":"@ + decimal(port as nat),
                ],
            ),
    {
        let mut args: Vec<String> = Vec::new();
        push_str_arg(&mut args, "settings");
        push_str_arg(&mut args, "put");
        push_str_arg(&mut args, "global");
        push_str_arg(&mut args, "http_proxy");
        let mut proxy = chars_of(host);
        extend_str(&mut proxy, ":");
        let digits = crate::text::decimal_chars(port as u64);
        extend_chars(&mut proxy, &digits);
        let p = string_of(&proxy);
        let ghost before = args@;
        args.push(p);
        assert(string_views(args@) == string_views(before).push(p@)) by {
            assert(args@ == before.push(p));
        }
        self.shell_command(device_id, &args)
    }

    /// The arguments of the command that removes the device's proxy.
    pub fn clear_http_proxy(&self, device_id: &str) -> (r: Vec<String>)
        ensures
            string_views(r@) == shell_args(
                serial_of(device_id@),
                seq!["settings"@, "delete"@, "global"@, "http_proxy"@],
            ),
    {
        let mut args: Vec<String> = Vec::new();
        push_str_arg(&mut args, "settings");
        push_str_arg(&mut args, "delete");
        push_str_arg(&mut args, "global");
        push_str_arg(&mut args, "http_proxy");
        self.shell_command(device_id, &args)
    }

    /// The arguments of the command that reads a system property.
    pub fn get_prop_command(&self, device_id: &str, key: &str) -> (r: Vec<String>)
        ensures
            string_views(r@) == shell_args(serial_of(device_id@), seq!["getprop"@, key@]),
    {
        let mut args: Vec<String> = Vec::new();
        push_str_arg(&mut args, "getprop");
        push_str_arg(&mut args, key);
        self.shell_command(device_id, &args)
    }
}

// ---------------------------------------------------------------------------
// Android: the device list
// ---------------------------------------------------------------------------

/// Words split so far and the word being read, after the characters of `s`.
pub open spec fn words_acc(s: Seq<char>) -> (Seq<Seq<char>>, Seq<char>)
    decreases s.len(),
{
    if s.len() == 0 {
        (seq![], seq![])
    } else {
        let (done, cur) = words_acc(s.drop_last());
        if is_white_space(s.last()) {
            if cur.len() > 0 {
                (done.push(cur), seq![])
            } else {
                (done, cur)
            }
        } else {
            (done, cur.push(s.last()))
        }
    }
}

/// The whitespace-separated words of `s` (`str::split_whitespace`).
pub open spec fn words(s: Seq<char>) -> Seq<Seq<char>> {
    let (done, cur) = words_acc(s);
    if cur.len() > 0 {
        done.push(cur)
    } else {
        done
    }
}

fn split_words(v: &Vec<char>) -> (r: Vec<Vec<char>>)
    ensures
        views(r@) == words(v@),
{
    let mut done: Vec<Vec<char>> = Vec::new();
    let mut cur: Vec<char> = Vec::new();
    let mut i: usize = 0;
    while i < v.len()
        invariant
            i <= v@.len(),
            words_acc(v@.take(i as int)) == (views(done@), cur@),
        decreases v@.len() - i,
    {
        let c = v[i];
        assert(v@.take(i + 1).drop_last() == v@.take(i as int));
        if is_space_char(c) {
            if cur.len() > 0 {
                let ghost before = done@;
                done.push(cur);
                cur = Vec::new();
                assert(views(done@) == views(before).push(done@.last()@));
            }
        } else {
            cur.push(c);
        }
        i = i + 1;
    }
    assert(v@.take(v@.len() as int) == v@);
    if cur.len() > 0 {
        let ghost before = done@;
        done.push(cur);
        assert(views(done@) == views(before).push(done@.last()@));
    }
    done
}

/// The value of the first `key:value` attribute written with `prefix`.
pub open spec fn attribute_value(attributes: Seq<Seq<char>>, prefix: Seq<char>) -> Option<Seq<char>>
    decreases attributes.len(),
{
    if attributes.len() == 0 {
        None
    } else if has_prefix(attributes[0], prefix) {
        Some(attributes[0].skip(prefix.len() as int))
    } else {
        attribute_value(attributes.drop_first(), prefix)
    }
}

pub open spec fn underscores_to_spaces(s: Seq<char>) -> Seq<char> {
    s.map_values(|c: char| if c == '_' { ' ' } else { c })
}

/// An emulator listed by `adb devices -l`: serial, state and model.
pub struct AdbDeviceEntry {
    pub serial: String,
    pub state: String,
    pub model: String,
}

pub open spec fn entry_view(e: AdbDeviceEntry) -> (Seq<char>, Seq<char>, Seq<char>) {
    (e.serial@, e.state@, e.model@)
}

/// The emulator a line of `adb devices -l` describes, if it describes one:
/// its serial starts with `emulator-`, its state follows (`unknown` where
/// the line has none) and its model is the `model:` attribute with
/// underscores read as spaces, or the serial where there is none.
pub open spec fn entry_of_line(line: Seq<char>) -> Option<(Seq<char>, Seq<char>, Seq<char>)> {
    let t = trim(line);
    let ws = words(t);
    if t.len() == 0 || ws.len() == 0 || !has_prefix(ws[0], "emulator-"@) {
        None
    } else {
        let serial = ws[0];
        let state = if ws.len() > 1 { ws[1] } else { "unknown"@ };
        let attributes = if ws.len() > 2 { ws.skip(2) } else { seq![] };
        let model = match attribute_value(attributes, "model:"@) {
            Some(m) => underscores_to_spaces(m),
            None => serial,
        };
        Some((serial, state, model))
    }
}

pub open spec fn entries_of_lines(lines: Seq<Seq<char>>) -> Seq<(Seq<char>, Seq<char>, Seq<char>)>
    decreases lines.len(),
{
    if lines.len() == 0 {
        seq![]
    } else {
        match entry_of_line(lines.last()) {
            Some(e) => entries_of_lines(lines.drop_last()).push(e),
            None => entries_of_lines(lines.drop_last()),
        }
    }
}

/// The emulators `adb devices -l` printed, in the order printed; its first
/// line is a heading.
pub open spec fn adb_entries(output: Seq<char>) -> Seq<(Seq<char>, Seq<char>, Seq<char>)> {
    let lines = split_on(output, '\n');
    if lines.len() <= 1 {
        seq![]
    } else {
        entries_of_lines(lines.skip(1))
    }
}

fn attribute_of(attributes: &Vec<Vec<char>>, from: usize, prefix: &Vec<char>) -> (r: Option<Vec<char>>)
    requires
        from <= attributes@.len(),
    ensures
        r matches Some(v) ==> attribute_value(views(attributes@).skip(from as int), prefix@) == Some(v@),
        r is None ==> attribute_value(views(attributes@).skip(from as int), prefix@) is None,
{
    let mut i = from;
    while i < attributes.len()
        invariant
            from <= i <= attributes@.len(),
            attribute_value(views(attributes@).skip(from as int), prefix@) == attribute_value(
                views(attributes@).skip(i as int),
                prefix@,
            ),
        decreases attributes@.len() - i,
    {
        let a = &attributes[i];
        assert(views(attributes@).skip(i as int)[0] == a@);
        assert(views(attributes@).skip(i as int).drop_first() == views(attributes@).skip(i + 1));
        if starts_with_chars(a, prefix) {
            return Some(slice_chars(a, prefix.len(), a.len()));
        }
        i = i + 1;
    }
    assert(views(attributes@).skip(i as int).len() == 0);
    None
}

fn spaces_for_underscores(v: &Vec<char>) -> (r: Vec<char>)
    ensures
        r@ == underscores_to_spaces(v@),
{
    let mut r: Vec<char> = Vec::new();
    let mut i: usize = 0;
    while i < v.len()
        invariant
            i <= v@.len(),
            r@ == underscores_to_spaces(v@.take(i as int)),
        decreases v@.len() - i,
    {
        let c = v[i];
        r.push(if c == '_' { ' ' } else { c });
        assert(underscores_to_spaces(v@.take(i + 1)) == underscores_to_spaces(v@.take(i as int)).push(
            if c == '_' { ' ' } else { c },
        ));
        i = i + 1;
    }
    assert(v@.take(v@.len() as int) == v@);
    r
}

fn entry_from_line(line: &Vec<char>) -> (r: Option<AdbDeviceEntry>)
    ensures
        r matches Some(e) ==> entry_of_line(line@) == Some(entry_view(e)),
        r is None ==> entry_of_line(line@) is None,
{
    let t = trim_chars(line);
    if t.len() == 0 {
        return None;
    }
    let ws = split_words(&t);
    if ws.len() == 0 {
        return None;
    }
    let emulator = chars_of("emulator-");
    if !starts_with_chars(&ws[0], &emulator) {
        return None;
    }
    let state = if ws.len() > 1 {
        string_of(&ws[1])
    } else {
        owned("unknown")
    };
    let model_prefix = chars_of("model:");
    let found = if ws.len() > 2 {
        attribute_of(&ws, 2, &model_prefix)
    } else {
        None
    };
    proof {
        if ws@.len() <= 2 {
            assert(attribute_value(seq![], "model:"@) is None);
        }
    }
    let model = match found {
        Some(m) => string_of(&spaces_for_underscores(&m)),
        None => string_of(&ws[0]),
    };
    Some(AdbDeviceEntry { serial: string_of(&ws[0]), state, model })
}

impl AndroidDeviceProvider {
    /// The emulators listed in the output of `adb devices -l`.
    pub fn device_entries(&self, output: &str) -> (r: Vec<AdbDeviceEntry>)
        ensures
            r@.map_values(|e: AdbDeviceEntry| entry_view(e)) == adb_entries(output@),
    {
        let text = chars_of(output);
        let lines = split_chars(&text, '\n');
        let mut r: Vec<AdbDeviceEntry> = Vec::new();
        if lines.len() <= 1 {
            return r;
        }
        let ghost rest = views(lines@).skip(1);
        let mut i: usize = 1;
        while i < lines.len()
            invariant
                1 <= i <= lines@.len(),
                rest == views(lines@).skip(1),
                r@.map_values(|e: AdbDeviceEntry| entry_view(e)) == entries_of_lines(rest.take(i - 1)),
            decreases lines@.len() - i,
        {
            assert(rest.take(i as int).drop_last() == rest.take(i - 1));
            assert(rest.take(i as int).last() == lines@[i as int]@);
            let ghost before = r@;
            match entry_from_line(&lines[i]) {
                Some(e) => {
                    r.push(e);
                    assert(r@.map_values(|e: AdbDeviceEntry| entry_view(e)) == before.map_values(
                        |e: AdbDeviceEntry| entry_view(e),
                    ).push(entry_view(e)));
                },
                None => {},
            }
            i = i + 1;
        }
        assert(rest.take(lines@.len() - 1) == rest);
        r
    }
}

// ---------------------------------------------------------------------------
// Devices
// ---------------------------------------------------------------------------

/// A device as a mathematical value.
pub struct DeviceModel {
    pub schema_version: u16,
    pub id: Seq<char>,
    pub platform: DevicePlatform,
    pub name: Seq<char>,
    pub os_version: Option<Seq<char>>,
    pub state: Seq<char>,
    pub capabilities: DeviceCapabilities,
}

pub open spec fn opt_view(o: Option<String>) -> Option<Seq<char>> {
    match o {
        Some(s) => Some(s@),
        None => None,
    }
}

pub open spec fn device_model(d: Device) -> DeviceModel {
    DeviceModel {
        schema_version: d.schema_version,
        id: d.id@,
        platform: d.platform,
        name: d.name@,
        os_version: opt_view(d.os_version),
        state: d.state@,
        capabilities: d.capabilities,
    }
}

pub open spec fn device_models(v: Seq<Device>) -> Seq<DeviceModel> {
    v.map_values(|d: Device| device_model(d))
}

pub open spec fn filled(o: Option<Seq<char>>) -> Option<Seq<char>> {
    match o {
        Some(v) => if v.len() > 0 { Some(v) } else { None },
        None => None,
    }
}

/// The version shown for an Android device: the release, the API level or
/// both, whichever of them the device reported.
pub open spec fn android_version(release: Option<Seq<char>>, api: Option<Seq<char>>) -> Option<Seq<char>> {
    match (filled(release), filled(api)) {
        (Some(r), Some(a)) => Some(r + " (API "@ + a + ")"@),
        (Some(r), None) => Some(r),
        (None, Some(a)) => Some("API "@ + a),
        (None, None) => None,
    }
}

fn filled_string(o: Option<String>) -> (r: Option<String>)
    ensures
        opt_view(r) == filled(opt_view(o)),
{
    match o {
        Some(v) => if v.as_str().unicode_len() > 0 { Some(v) } else { None },
        None => None,
    }
}

/// The version text for a release and an API level read from a device.
pub fn format_android_version(release: Option<String>, api_level: Option<String>) -> (r: Option<String>)
    ensures
        opt_view(r) == android_version(opt_view(release), opt_view(api_level)),
{
    match (filled_string(release), filled_string(api_level)) {
        (Some(r), Some(a)) => {
            let mut v = chars_of(r.as_str());
            extend_str(&mut v, " (API ");
            extend_str(&mut v, a.as_str());
            extend_str(&mut v, ")");
            Some(string_of(&v))
        },
        (Some(r), None) => Some(r),
        (None, Some(a)) => Some(concat2("API ", a.as_str())),
        (None, None) => None,
    }
}

/// The device for an emulator of `adb devices -l`; the release and API
/// level are those the emulator reported, and count only while it is online.
pub open spec fn android_device(
    entry: (Seq<char>, Seq<char>, Seq<char>),
    release: Option<Seq<char>>,
    api: Option<Seq<char>>,
) -> DeviceModel {
    let (serial, state, model) = entry;
    let online = state == "device"@;
    DeviceModel {
        schema_version: SCHEMA_VERSION,
        id: "android:"@ + serial,
        platform: DevicePlatform::Android,
        name: model,
        os_version: if online { android_version(release, api) } else { None },
        state: state,
        capabilities: DeviceCapabilities {
            can_install_ca: false,
            can_auto_route_proxy: online,
            can_target_process: false,
        },
    }
}

impl AndroidDeviceProvider {
    /// Whether an emulator is online, so that its properties can be read.
    pub fn is_online(&self, entry: &AdbDeviceEntry) -> (r: bool)
        ensures
            r == (entry.state@ == "device"@),
    {
        crate::text::str_eq(entry.state.as_str(), "device")
    }

    /// The device for an emulator, with the release and API level it
    /// reported (`ro.build.version.release`, `ro.build.version.sdk`).
    pub fn device(&self, entry: AdbDeviceEntry, release: Option<String>, api_level: Option<String>) -> (d: Device)
        ensures
            device_model(d) == android_device(entry_view(entry), opt_view(release), opt_view(api_level)),
    {
        let online = self.is_online(&entry);
        let os_version = if online {
            format_android_version(release, api_level)
        } else {
            None
        };
        Device {
            schema_version: SCHEMA_VERSION,
            id: concat2("android:", entry.serial.as_str()),
            platform: DevicePlatform::Android,
            name: entry.model,
            os_version,
            state: entry.state,
            capabilities: DeviceCapabilities {
                can_install_ca: false,
                can_auto_route_proxy: online,
                can_target_process: false,
            },
        }
    }
}

// ---------------------------------------------------------------------------
// iOS: simctl
// ---------------------------------------------------------------------------

pub open spec fn dashes_to_dots(s: Seq<char>) -> Seq<char> {
    s.map_values(|c: char| if c == '-' { '.' } else { c })
}

/// The iOS version a simctl runtime identifier names
/// (`com.apple.CoreSimulator.SimRuntime.iOS-17-2` names `17.2`).
pub open spec fn ios_runtime_version(runtime: Seq<char>) -> Option<Seq<char>> {
    match crate::text::find_from(runtime, ".iOS-"@, 0) {
        Some(i) => {
            let version = dashes_to_dots(runtime.skip(i + 5));
            if version.len() > 0 {
                Some(version)
            } else {
                None
            }
        },
        None => None,
    }
}

/// The iOS version of a simctl runtime identifier.
pub fn parse_ios_runtime_version(runtime: &str) -> (r: Option<String>)
    ensures
        opt_view(r) == ios_runtime_version(runtime@),
{
    let v = chars_of(runtime);
    let n = v.len();
    let marker = chars_of(".iOS-");
    proof {
        reveal_strlit(".iOS-");
    }
    match crate::text::find_exec(&v, &marker, 0) {
        Some(i) => {
            proof {
                crate::text::lemma_find_from_some(v@, marker@, 0);
                assert(marker@.len() == 5);
                assert(crate::text::occurs_at(v@, marker@, i as int));
                assert(i + 5 <= n);
            }
            let mut out: Vec<char> = Vec::new();
            let mut j = i + 5;
            while j < v.len()
                invariant
                    i + 5 <= j <= v@.len(),
                    out@ == dashes_to_dots(v@.subrange(i + 5, j as int)),
                decreases v@.len() - j,
            {
                let c = v[j];
                out.push(if c == '-' { '.' } else { c });
                assert(v@.subrange(i + 5, j + 1) == v@.subrange(i + 5, j as int).push(c));
                j = j + 1;
            }
            assert(v@.subrange(i + 5, v@.len() as int) == v@.skip(i + 5));
            if out.len() > 0 {
                Some(string_of(&out))
            } else {
                None
            }
        },
        None => None,
    }
}

/// The device for a simulator of a simctl runtime.
pub open spec fn ios_device(runtime: Seq<char>, udid: Seq<char>, name: Seq<char>, state: Seq<char>) -> DeviceModel {
    DeviceModel {
        schema_version: SCHEMA_VERSION,
        id: "ios:"@ + udid,
        platform: DevicePlatform::Ios,
        name: name,
        os_version: ios_runtime_version(runtime),
        state: state,
        capabilities: DeviceCapabilities {
            can_install_ca: true,
            can_auto_route_proxy: false,
            can_target_process: false,
        },
    }
}

/// The simulators listed under one runtime: each entry with a string
/// `udid` and `name`; a missing `state` reads as `Unknown`.
pub open spec fn ios_devices_in(runtime: Seq<char>, items: Seq<JsonTree>) -> Seq<DeviceModel>
    decreases items.len(),
{
    if items.len() == 0 {
        seq![]
    } else {
        let rest = ios_devices_in(runtime, items.drop_last());
        let v = items.last();
        match (text_field(v, "udid"@), text_field(v, "name"@)) {
            (Some(u), Some(n)) => rest.push(
                ios_device(
                    runtime,
                    u,
                    n,
                    match text_field(v, "state"@) {
                        Some(s) => s,
                        None => "Unknown"@,
                    },
                ),
            ),
            _ => rest,
        }
    }
}

/// The simulators of every iOS runtime, runtime by runtime.
pub open spec fn ios_devices_of(runtimes: Seq<(Seq<char>, JsonTree)>) -> Seq<DeviceModel>
    decreases runtimes.len(),
{
    if runtimes.len() == 0 {
        seq![]
    } else {
        let rest = ios_devices_of(runtimes.drop_last());
        let runtime = runtimes.last().0;
        if crate::text::contains_seq(runtime, ".iOS-"@) {
            match runtimes.last().1 {
                JsonTree::Array(items) => rest + ios_devices_in(runtime, items),
                _ => rest,
            }
        } else {
            rest
        }
    }
}

/// The simulators a `simctl list --json devices` document lists, or `None`
/// where it has no `devices` object.
pub open spec fn simctl_devices(root: JsonTree) -> Option<Seq<DeviceModel>> {
    match field(root, "devices"@) {
        Some(JsonTree::Object(runtimes)) => Some(ios_devices_of(runtimes)),
        _ => None,
    }
}

fn ios_device_exec(runtime: &str, udid: &str, name: String, state: String) -> (d: Device)
    ensures
        device_model(d) == ios_device(runtime@, udid@, name@, state@),
{
    Device {
        schema_version: SCHEMA_VERSION,
        id: concat2("ios:", udid),
        platform: DevicePlatform::Ios,
        name,
        os_version: parse_ios_runtime_version(runtime),
        state,
        capabilities: DeviceCapabilities {
            can_install_ca: true,
            can_auto_route_proxy: false,
            can_target_process: false,
        },
    }
}

fn push_runtime_devices(out: &mut Vec<Device>, runtime: &str, items: &Vec<JsonValue>)
    ensures
        device_models(final(out)@) == device_models(old(out)@) + ios_devices_in(runtime@, trees_of(items@)),
{
    let ghost start = device_models(out@);
    let mut i: usize = 0;
    while i < items.len()
        invariant
            i <= items@.len(),
            device_models(out@) == start + ios_devices_in(runtime@, trees_of(items@.take(i as int))),
        decreases items@.len() - i,
    {
        proof {
            lemma_trees_of_push(items@.take(i as int), items@[i as int]);
            assert(items@.take(i + 1) == items@.take(i as int).push(items@[i as int]));
            assert(trees_of(items@.take(i + 1)).drop_last() == trees_of(items@.take(i as int)));
        }
        let v = &items[i];
        let udid = text_field_of(v, "udid");
        let name = text_field_of(v, "name");
        match (udid, name) {
            (Some(u), Some(n)) => {
                let state = match text_field_of(v, "state") {
                    Some(s) => s,
                    None => owned("Unknown"),
                };
                let d = ios_device_exec(runtime, u.as_str(), n, state);
                let ghost before = out@;
                out.push(d);
                assert(device_models(out@) == device_models(before).push(device_model(d)));
            },
            _ => {},
        }
        i = i + 1;
    }
    assert(items@.take(items@.len() as int) == items@);
}

fn simctl_devices_exec(root: &JsonValue) -> (r: Option<Vec<Device>>)
    ensures
        match r {
            Some(v) => simctl_devices(tree_of(*root)) == Some(device_models(v@)),
            None => simctl_devices(tree_of(*root)) is None,
        },
{
    match field_of(root, "devices") {
        Some(JsonValue::Object(runtimes)) => {
            let mut out: Vec<Device> = Vec::new();
            let mut i: usize = 0;
            let marker = chars_of(".iOS-");
            while i < runtimes.len()
                invariant
                    i <= runtimes@.len(),
                    marker@ == ".iOS-"@,
                    device_models(out@) == ios_devices_of(members_of(runtimes@.take(i as int))),
                decreases runtimes@.len() - i,
            {
                proof {
                    lemma_members_of_push(runtimes@.take(i as int), runtimes@[i as int]);
                    assert(runtimes@.take(i + 1) == runtimes@.take(i as int).push(runtimes@[i as int]));
                    assert(members_of(runtimes@.take(i + 1)).drop_last() == members_of(runtimes@.take(i as int)));
                }
                let name = chars_of(runtimes[i].0.as_str());
                if crate::text::contains_chars(&name, &marker) {
                    match &runtimes[i].1 {
                        JsonValue::Array(items) => {
                            push_runtime_devices(&mut out, runtimes[i].0.as_str(), items);
                        },
                        _ => {},
                    }
                }
                i = i + 1;
            }
            assert(runtimes@.take(runtimes@.len() as int) == runtimes@);
            Some(out)
        },
        _ => None,
    }
}

// ---------------------------------------------------------------------------
// Ordering devices
// ---------------------------------------------------------------------------

/// `a` is listed before `b`: running devices first, then by name.
pub open spec fn placed_before(a: (bool, DeviceModel), b: (bool, DeviceModel)) -> bool {
    (a.0 && !b.0) || (a.0 == b.0 && seq_lt(a.1.name, b.1.name))
}

/// Where a stable insertion puts `x` into the ordered `s`: in front of the
/// first device that `x` is placed before.
pub open spec fn insertion_index(s: Seq<(bool, DeviceModel)>, x: (bool, DeviceModel)) -> int
    decreases s.len(),
{
    if s.len() == 0 {
        0
    } else if placed_before(x, s[0]) {
        0
    } else {
        1 + insertion_index(s.drop_first(), x)
    }
}

/// Devices in listing order: running ones first, then by name, devices that
/// tie keeping the order they came in (a stable sort).
pub open spec fn ordered_devices(s: Seq<(bool, DeviceModel)>) -> Seq<(bool, DeviceModel)>
    decreases s.len(),
{
    if s.len() == 0 {
        s
    } else {
        let rest = ordered_devices(s.drop_last());
        rest.insert(insertion_index(rest, s.last()), s.last())
    }
}

pub open spec fn flagged_models(v: Seq<(bool, Device)>) -> Seq<(bool, DeviceModel)> {
    v.map_values(|p: (bool, Device)| (p.0, device_model(p.1)))
}

pub open spec fn unflagged(v: Seq<(bool, DeviceModel)>) -> Seq<DeviceModel> {
    v.map_values(|p: (bool, DeviceModel)| p.1)
}

proof fn lemma_insertion_index(s: Seq<(bool, DeviceModel)>, x: (bool, DeviceModel), j: int)
    requires
        0 <= j <= s.len(),
        forall|m: int| 0 <= m < j ==> !placed_before(x, #[trigger] s[m]),
        j == s.len() || placed_before(x, s[j]),
    ensures
        insertion_index(s, x) == j,
    decreases j,
{
    if j > 0 {
        assert(!placed_before(x, s[0]));
        let t = s.drop_first();
        assert forall|m: int| 0 <= m < j - 1 implies !placed_before(x, #[trigger] t[m]) by {
            assert(t[m] == s[m + 1]);
        }
        if j < s.len() {
            assert(t[j - 1] == s[j]);
        }
        lemma_insertion_index(t, x, j - 1);
    }
}

fn goes_before(a: &(bool, Device), b: &(bool, Device)) -> (r: bool)
    ensures
        r == placed_before((a.0, device_model(a.1)), (b.0, device_model(b.1))),
{
    (a.0 && !b.0) || (a.0 == b.0 && str_lt(a.1.name.as_str(), b.1.name.as_str()))
}

/// Stable sort of flagged devices into listing order.
fn order_devices(items: Vec<(bool, Device)>) -> (r: Vec<Device>)
    ensures
        device_models(r@) == unflagged(ordered_devices(flagged_models(items@))),
{
    let ghost orig = flagged_models(items@);
    let mut items = items;
    let mut out: Vec<(bool, Device)> = Vec::new();
    let ghost mut k: int = 0;
    while items.len() > 0
        invariant
            0 <= k <= orig.len(),
            flagged_models(items@) == orig.skip(k),
            flagged_models(out@) == ordered_devices(orig.take(k)),
        decreases items@.len(),
    {
        let ghost before_items = items@;
        let x = items.remove(0);
        proof {
            assert(flagged_models(before_items).len() == before_items.len());
            assert(k < orig.len());
            assert(orig.skip(k)[0] == flagged_models(before_items)[0]);
            assert(orig.skip(k)[0] == (x.0, device_model(x.1)));
            assert(items@ == before_items.subrange(1, before_items.len() as int));
            assert forall|m: int| 0 <= m < items@.len() implies #[trigger] flagged_models(items@)[m] == orig.skip(k + 1)[m] by {
                assert(items@[m] == before_items[m + 1]);
                assert(flagged_models(before_items)[m + 1] == orig.skip(k)[m + 1]);
            }
            assert(flagged_models(items@) =~= orig.skip(k + 1));
            assert(orig.take(k + 1).drop_last() == orig.take(k));
            assert(orig.take(k + 1).last() == orig[k]);
            assert(orig[k] == orig.skip(k)[0]);
        }
        let mut j: usize = 0;
        while j < out.len() && !goes_before(&x, &out[j])
            invariant
                j <= out@.len(),
                forall|m: int| 0 <= m < j ==> !placed_before((x.0, device_model(x.1)), #[trigger] flagged_models(out@)[m]),
            decreases out@.len() - j,
        {
            j = j + 1;
        }
        proof {
            lemma_insertion_index(flagged_models(out@), (x.0, device_model(x.1)), j as int);
        }
        let ghost before_out = out@;
        out.insert(j, x);
        proof {
            assert(flagged_models(out@) == flagged_models(before_out).insert(j as int, (x.0, device_model(x.1))));
            k = k + 1;
        }
    }
    proof {
        assert(orig.take(k) == orig);
    }
    let ghost sorted = out@;
    let mut r: Vec<Device> = Vec::new();
    let ghost mut i: int = 0;
    while out.len() > 0
        invariant
            0 <= i <= sorted.len(),
            out@ == sorted.skip(i as int),
            device_models(r@) == unflagged(flagged_models(sorted.take(i as int))),
        decreases out@.len(),
    {
        let ghost before_out = out@;
        let p = out.remove(0);
        proof {
            assert(i < sorted.len());
            assert(sorted.skip(i as int)[0] == p);
            assert(out@ == before_out.subrange(1, before_out.len() as int));
            assert(out@ == sorted.skip(i + 1));
            assert(sorted.take(i + 1) == sorted.take(i as int).push(p));
        }
        let ghost before = r@;
        r.push(p.1);
        assert(device_models(r@) == device_models(before).push(device_model(p.1)));
        assert(unflagged(flagged_models(sorted.take(i + 1))) == unflagged(flagged_models(sorted.take(i as int))).push(device_model(p.1)));
        proof {
            i = i + 1;
        }
    }
    assert(sorted.take(i as int) == sorted);
    r
}

/// Android devices flagged as running where adb reports them online.
pub open spec fn android_listing(devices: Seq<DeviceModel>) -> Seq<DeviceModel> {
    unflagged(ordered_devices(devices.map_values(|d: DeviceModel| (d.state == "device"@, d))))
}

/// Simulators flagged as running where simctl reports them booted, in any case.
pub open spec fn ios_listing(devices: Seq<DeviceModel>) -> Seq<DeviceModel> {
    unflagged(ordered_devices(devices.map_values(|d: DeviceModel| (seq_lower(d.state) == "booted"@, d))))
}

impl AndroidDeviceProvider {
    /// The devices in listing order: online emulators first, then by name.
    pub fn sort_devices(&self, devices: Vec<Device>) -> (r: Vec<Device>)
        ensures
            device_models(r@) == android_listing(device_models(devices@)),
    {
        let ghost orig = devices@;
        let mut devices = devices;
        let mut flagged: Vec<(bool, Device)> = Vec::new();
        let ghost mut k: int = 0;
        while devices.len() > 0
            invariant
                0 <= k <= orig.len(),
                devices@ == orig.skip(k),
                flagged_models(flagged@) == device_models(orig.take(k)).map_values(
                    |d: DeviceModel| (d.state == "device"@, d),
                ),
            decreases devices@.len(),
        {
            let d = devices.remove(0);
            let online = crate::text::str_eq(d.state.as_str(), "device");
            let ghost before = flagged@;
            flagged.push((online, d));
            proof {
                assert(orig.skip(k)[0] == d);
                assert(devices@ == orig.skip(k + 1));
                assert(orig.take(k + 1) == orig.take(k).push(d));
                assert(flagged_models(flagged@) == flagged_models(before).push((online, device_model(d))));
                assert(device_models(orig.take(k + 1)).map_values(|d: DeviceModel| (d.state == "device"@, d))
                    == device_models(orig.take(k)).map_values(|d: DeviceModel| (d.state == "device"@, d)).push(
                    (online, device_model(d)),
                ));
                k = k + 1;
            }
        }
        assert(orig.take(k) == orig);
        order_devices(flagged)
    }
}

impl IosDeviceProvider {
    /// The arguments of `xcrun` that list the available simulators as JSON.
    pub fn list_devices_command(&self) -> (r: Vec<String>)
        ensures
            crate::order::string_views(r@) == seq!["simctl"@, "list"@, "--json"@, "devices"@, "available"@],
    {
        let r = vec![owned("simctl"), owned("list"), owned("--json"), owned("devices"), owned("available")];
        assert(crate::order::string_views(r@) =~= seq!["simctl"@, "list"@, "--json"@, "devices"@, "available"@]);
        r
    }

    /// The simulators `xcrun simctl list --json devices available` reported,
    /// given whether it succeeded and what it wrote: a failed run is refused
    /// with its stderr, trimmed; output that is not JSON is refused with the
    /// reader's error; otherwise the simulators are those `list_devices`
    /// reads from the document.
    pub fn devices_from_output(&self, success: bool, stdout: &[u8], stderr: &[u8]) -> (r: Result<Vec<Device>, DeviceError>)
        ensures
            !success ==> (r matches Err(e) && e.code@ == "simctl_list_failed"@
                && e.message@ == trim(crate::compare::utf8_lossy(stderr@)) && e.recoverable),
            success ==> match crate::json::json_parse_bytes(stdout@) {
                Err(m) => r matches Err(e) && e.code@ == "simctl_json_invalid"@ && e.message@ == m && e.recoverable,
                Ok(root) => match r {
                    Ok(v) => simctl_devices(tree_of(root)) matches Some(found) && device_models(v@) == ios_listing(found),
                    Err(e) => simctl_devices(tree_of(root)) is None && e.code@ == "simctl_devices_missing"@
                        && e.message@ == "devices object missing"@ && e.recoverable,
                },
            },
    {
        if !success {
            let text = crate::compare::lossy_text(stderr);
            let detail = crate::text::trimmed(text.as_str());
            return Err(DeviceError::command_failed("simctl_list_failed", detail.as_str()));
        }
        match crate::json::parse_json_bytes(stdout) {
            Err(message) => Err(DeviceError::parse_failed("simctl_json_invalid", message.as_str())),
            Ok(root) => self.list_devices(&root),
        }
    }

    /// The simulators of a `simctl list --json devices available` document,
    /// booted ones first, then by name.
    pub fn list_devices(&self, root: &JsonValue) -> (r: Result<Vec<Device>, DeviceError>)
        ensures
            match r {
                Ok(v) => simctl_devices(tree_of(*root)) matches Some(found) && device_models(v@) == ios_listing(found),
                Err(e) => simctl_devices(tree_of(*root)) is None && e.code@ == "simctl_devices_missing"@
                    && e.message@ == "devices object missing"@ && e.recoverable,
            },
    {
        match simctl_devices_exec(root) {
            None => Err(DeviceError::parse_failed("simctl_devices_missing", "devices object missing")),
            Some(found) => {
                let ghost orig = found@;
                let mut devices = found;
                let mut flagged: Vec<(bool, Device)> = Vec::new();
                let ghost mut k: int = 0;
                while devices.len() > 0
                    invariant
                        0 <= k <= orig.len(),
                        devices@ == orig.skip(k),
                        flagged_models(flagged@) == device_models(orig.take(k)).map_values(
                            |d: DeviceModel| (seq_lower(d.state) == "booted"@, d),
                        ),
                    decreases devices@.len(),
                {
                    let d = devices.remove(0);
                    let booted = crate::text::lower_is(&chars_of(d.state.as_str()), "booted");
                    let ghost before = flagged@;
                    flagged.push((booted, d));
                    proof {
                        assert(orig.skip(k)[0] == d);
                        assert(devices@ == orig.skip(k + 1));
                        assert(orig.take(k + 1) == orig.take(k).push(d));
                        assert(flagged_models(flagged@) == flagged_models(before).push((booted, device_model(d))));
                        assert(device_models(orig.take(k + 1)).map_values(
                            |d: DeviceModel| (seq_lower(d.state) == "booted"@, d),
                        ) == device_models(orig.take(k)).map_values(
                            |d: DeviceModel| (seq_lower(d.state) == "booted"@, d),
                        ).push((booted, device_model(d))));
                        k = k + 1;
                    }
                }
                assert(orig.take(k) == orig);
                Ok(order_devices(flagged))
            },
        }
    }
}

// ---------------------------------------------------------------------------
// The listing order is a sorted rearrangement
// ---------------------------------------------------------------------------

/// No device is listed after one that it should be placed before.
pub open spec fn listed_in_order(s: Seq<(bool, DeviceModel)>) -> bool {
    forall|i: int, j: int| 0 <= i < j < s.len() ==> !placed_before(#[trigger] s[j], #[trigger] s[i])
}

proof fn lemma_placed_before_transitive(a: (bool, DeviceModel), b: (bool, DeviceModel), c: (bool, DeviceModel))
    requires
        placed_before(a, b),
        placed_before(b, c),
    ensures
        placed_before(a, c),
{
    if a.0 == b.0 && b.0 == c.0 {
        lemma_seq_lt_transitive(a.1.name, b.1.name, c.1.name);
    }
}

proof fn lemma_placed_before_irreflexive(a: (bool, DeviceModel))
    ensures
        !placed_before(a, a),
{
    crate::order::lemma_seq_lt_irreflexive(a.1.name);
}

proof fn lemma_insertion_index_bounds(s: Seq<(bool, DeviceModel)>, x: (bool, DeviceModel))
    ensures
        0 <= insertion_index(s, x) <= s.len(),
        forall|m: int| 0 <= m < insertion_index(s, x) ==> !placed_before(x, #[trigger] s[m]),
        insertion_index(s, x) < s.len() ==> placed_before(x, s[insertion_index(s, x)]),
    decreases s.len(),
{
    if s.len() > 0 && !placed_before(x, s[0]) {
        let t = s.drop_first();
        lemma_insertion_index_bounds(t, x);
        assert forall|m: int| 0 <= m < insertion_index(s, x) implies !placed_before(x, #[trigger] s[m]) by {
            if m > 0 {
                assert(s[m] == t[m - 1]);
            }
        }
        if insertion_index(s, x) < s.len() {
            assert(s[insertion_index(s, x)] == t[insertion_index(t, x)]);
        }
    }
}

proof fn lemma_stable_insert_in_order(s: Seq<(bool, DeviceModel)>, x: (bool, DeviceModel))
    requires
        listed_in_order(s),
    ensures
        listed_in_order(s.insert(insertion_index(s, x), x)),
        s.insert(insertion_index(s, x), x).to_multiset() == s.to_multiset().insert(x),
{
    lemma_insertion_index_bounds(s, x);
    let p = insertion_index(s, x);
    let r = s.insert(p, x);
    assert forall|i: int, j: int| 0 <= i < j < r.len() implies !placed_before(#[trigger] r[j], #[trigger] r[i]) by {
        if j < p {
            assert(r[i] == s[i] && r[j] == s[j]);
        } else if j == p {
            assert(r[i] == s[i]);
        } else if i == p {
            assert(r[j] == s[j - 1]);
            assert(placed_before(x, s[p]));
            if placed_before(s[j - 1], x) {
                lemma_placed_before_transitive(s[j - 1], x, s[p]);
                if j - 1 == p {
                    lemma_placed_before_irreflexive(s[p]);
                }
            }
        } else if i < p {
            assert(r[i] == s[i] && r[j] == s[j - 1]);
        } else {
            assert(r[i] == s[i - 1] && r[j] == s[j - 1]);
        }
    }
    vstd::seq_lib::to_multiset_insert(s, p, x);
}

/// The listing order of devices is sorted (running devices first, then by
/// name) and lists each device it was given exactly as often as given.
pub proof fn listing_order_is_a_sorted_rearrangement(s: Seq<(bool, DeviceModel)>)
    ensures
        listed_in_order(ordered_devices(s)),
        ordered_devices(s).to_multiset() == s.to_multiset(),
    decreases s.len(),
{
    if s.len() == 0 {
    } else {
        listing_order_is_a_sorted_rearrangement(s.drop_last());
        lemma_stable_insert_in_order(ordered_devices(s.drop_last()), s.last());
        vstd::seq_lib::to_multiset_build(s.drop_last(), s.last());
        assert(s.drop_last().push(s.last()) == s);
    }
}

impl AndroidDeviceProvider {
    /// The devices for the emulators of `adb devices -l`, in listing order;
    /// `versions` holds, for each emulator, the release and API level it
    /// reported (read only from online ones).
    pub fn list_devices(&self, entries: Vec<AdbDeviceEntry>, versions: Vec<(Option<String>, Option<String>)>) -> (r: Vec<Device>)
        requires
            entries@.len() == versions@.len(),
        ensures
            device_models(r@) == android_listing(
                Seq::new(
                    entries@.len(),
                    |i: int| android_device(entry_view(entries@[i]), opt_view(versions@[i].0), opt_view(versions@[i].1)),
                ),
            ),
    {
        let ghost es = entries@;
        let ghost vs = versions@;
        let ghost target = Seq::new(
            es.len(),
            |i: int| android_device(entry_view(es[i]), opt_view(vs[i].0), opt_view(vs[i].1)),
        );
        let mut entries = entries;
        let mut versions = versions;
        let mut devices: Vec<Device> = Vec::new();
        let ghost mut k: int = 0;
        while entries.len() > 0
            invariant
                0 <= k <= es.len(),
                es.len() == vs.len(),
                target.len() == es.len(),
                entries@ == es.skip(k),
                versions@ == vs.skip(k),
                device_models(devices@) == target.take(k),
                forall|i: int| 0 <= i < es.len() ==> #[trigger] target[i] == android_device(entry_view(es[i]), opt_view(vs[i].0), opt_view(vs[i].1)),
            decreases entries@.len(),
        {
            let ghost be = entries@;
            let ghost bv = versions@;
            let e = entries.remove(0);
            let (release, api) = versions.remove(0);
            let d = self.device(e, release, api);
            let ghost before = devices@;
            devices.push(d);
            proof {
                assert(es.skip(k)[0] == e);
                assert(vs.skip(k)[0] == (release, api));
                assert(entries@ =~= es.skip(k + 1));
                assert(versions@ =~= vs.skip(k + 1));
                assert(device_models(devices@) == device_models(before).push(device_model(d)));
                assert(target.take(k + 1) == target.take(k).push(target[k]));
                k = k + 1;
            }
        }
        assert(target.take(k) == target);
        self.sort_devices(devices)
    }
}

// ---------------------------------------------------------------------------
// Trusting the capture certificate on a simulator
// ---------------------------------------------------------------------------

/// The simulator's id: the device id without its `ios:` prefix.
pub open spec fn udid_of(device_id: Seq<char>) -> Seq<char> {
    if has_prefix(device_id, "ios:"@) {
        device_id.skip(4)
    } else {
        device_id
    }
}

impl IosDeviceProvider {
    /// The `xcrun` arguments that add the capture's root certificate to the
    /// keychain of a simulator.
    pub fn install_root_ca(&self, device_id: &str, certificate: &str) -> (r: Vec<String>)
        ensures
            string_views(r@) == seq!["simctl"@, "keychain"@, udid_of(device_id@), "add-root-cert"@, certificate@],
    {
        let v = chars_of(device_id);
        let prefix = chars_of("ios:");
        proof {
            reveal_strlit("ios:");
        }
        let udid = if starts_with_chars(&v, &prefix) {
            slice_chars(&v, 4, v.len())
        } else {
            v
        };
        let mut r: Vec<String> = Vec::new();
        push_str_arg(&mut r, "simctl");
        push_str_arg(&mut r, "keychain");
        push_chars_arg(&mut r, &udid);
        push_str_arg(&mut r, "add-root-cert");
        push_str_arg(&mut r, certificate);
        r
    }

    /// What installing the certificate came to, given whether `xcrun`
    /// succeeded and what it wrote to stderr.
    pub fn install_outcome(&self, success: bool, stderr: &[u8]) -> (r: Result<(), DeviceError>)
        ensures
            success ==> r is Ok,
            !success ==> (r matches Err(e) && e.code@ == "simctl_ca_install_failed"@
                && e.message@ == trim(crate::compare::utf8_lossy(stderr@)) && e.recoverable),
    {
        if success {
            Ok(())
        } else {
            let text = crate::compare::lossy_text(stderr);
            let detail = crate::text::trimmed(text.as_str());
            Err(DeviceError::command_failed("simctl_ca_install_failed", detail.as_str()))
        }
    }
}

} // verus!
