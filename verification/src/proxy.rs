//! The payload as a stand-in for a system module.
//!
//! Steam loads the payload under the name of a system module and calls its
//! exports. They forward to the real module, and answer as if no device were
//! connected until every required target is known.

use vstd::prelude::*;
use vstd::string::*;

use crate::launch::{is_ascii_text_like, units_eq_ignore_ascii_case};
use crate::paths::SEPARATOR;
use crate::text::{decimal, encode_wide, push_decimal, utf16};

verus! {

/// Version of the marker by which a deployer knows the payload.
pub const PROXY_MARKER_VERSION: u32 = 1;

/// The name under which the payload was loaded.
#[derive(Clone, Copy, Debug, PartialEq, Eq, Structural)]
pub enum Vector {
    /// The payload's own name: it was injected.
    Injected,
    /// The name of the XInput module.
    XInput14,
    /// The name of the DirectInput module.
    DInput8,
    /// Any other name.
    Unknown,
}

impl Vector {
    /// The vector in words.
    pub open spec fn text(self) -> Seq<char> {
        match self {
            Vector::Injected => "injected"@,
            Vector::XInput14 => "XInput1_4.dll"@,
            Vector::DInput8 => "dinput8.dll"@,
            Vector::Unknown => "unknown"@,
        }
    }

    /// The vector in words.
    pub fn label(self) -> (text: &'static str)
        ensures
            text@ == self.text(),
    {
        match self {
            Vector::Injected => "injected",
            Vector::XInput14 => "XInput1_4.dll",
            Vector::DInput8 => "dinput8.dll",
            Vector::Unknown => "unknown",
        }
    }

    /// Whether the payload stands in for a system module.
    pub fn is_proxy(self) -> (result: bool)
        ensures
            result == (self is XInput14 || self is DInput8),
    {
        match self {
            Vector::XInput14 => true,
            Vector::DInput8 => true,
            _ => false,
        }
    }
}

/// Every vector has words of its own.
pub proof fn law_vector_labels_differ(first: Vector, second: Vector)
    ensures
        first.text() == second.text() ==> first == second,
        first.text().len() > 0,
{
    reveal_strlit("injected");
    reveal_strlit("XInput1_4.dll");
    reveal_strlit("dinput8.dll");
    reveal_strlit("unknown");
    if first.text() == second.text() {
        assert(first.text().len() == second.text().len());
        assert(first.text()[0] == second.text()[0]);
    }
}

/// The vector of a file name, in whatever case.
pub open spec fn vector_of(name: Seq<u16>) -> Vector {
    if is_ascii_text_like(name, "xinput1_4.dll"@) {
        Vector::XInput14
    } else if is_ascii_text_like(name, "dinput8.dll"@) {
        Vector::DInput8
    } else if is_ascii_text_like(name, "steam_input_gate.dll"@) {
        Vector::Injected
    } else {
        Vector::Unknown
    }
}

fn classify_units(name: &[u16]) -> (vector: Vector)
    ensures
        vector == vector_of(name@),
{
    if units_eq_ignore_ascii_case(name, "xinput1_4.dll") {
        Vector::XInput14
    } else if units_eq_ignore_ascii_case(name, "dinput8.dll") {
        Vector::DInput8
    } else if units_eq_ignore_ascii_case(name, "steam_input_gate.dll") {
        Vector::Injected
    } else {
        Vector::Unknown
    }
}

/// Classifies the name under which the payload was loaded.
pub fn classify_vector(file_name: &str) -> (vector: Vector)
    ensures
        vector == vector_of(utf16(file_name@)),
{
    let units = encode_wide(file_name);
    classify_units(&units)
}

/// What stands behind the last backslash of a path, or the whole path where there is
/// none.
pub open spec fn behind_backslash(path: Seq<u16>) -> Seq<u16>
    decreases path.len(),
{
    if path.len() == 0 || path.last() == SEPARATOR {
        Seq::empty()
    } else {
        behind_backslash(path.drop_last()).push(path.last())
    }
}

/// Classifies the path from which the payload was loaded, by what stands behind its
/// last backslash.
pub fn classify_image(path: &[u16]) -> (vector: Vector)
    ensures
        vector == vector_of(behind_backslash(path@)),
{
    let mut start: usize = path.len();
    assert(path@.take(path@.len() as int) =~= path@);
    assert(behind_backslash(path@) =~= behind_backslash(path@.take(start as int)) + path@.skip(
        start as int,
    ));
    while start > 0 && path[start - 1] != SEPARATOR
        invariant
            start <= path.len(),
            behind_backslash(path@) == behind_backslash(path@.take(start as int)) + path@.skip(
                start as int,
            ),
        decreases start,
    {
        proof {
            let before = path@.take(start as int);
            assert(before.drop_last() =~= path@.take(start - 1));
            assert(behind_backslash(before) + path@.skip(start as int) =~= behind_backslash(
                path@.take(start - 1),
            ) + path@.skip(start - 1));
        }
        start = start - 1;
    }
    let name = vstd::slice::slice_subrange(path, start, path.len());
    assert(name@ =~= behind_backslash(path@));
    classify_units(name)
}

/// The largest buffer that is tried for a module's path.
pub const MODULE_PATH_LIMIT: usize = 32768;

/// What follows a query of a module's path.
#[derive(Clone, Copy, Debug, PartialEq, Eq, Structural)]
pub enum PathStep {
    /// That many units of the buffer are the path.
    Done(usize),
    /// Query again with a buffer of that many units.
    Grow(usize),
}

/// Decides what follows a query that reported `length` units in a buffer.
///
/// A full buffer means a cut path, whose lost end is what the vector is told by.
pub fn module_path_step(length: usize, buffer: usize) -> (step: PathStep)
    requires
        buffer > 0,
    ensures
        step == if length < buffer {
            PathStep::Done(length)
        } else if buffer >= MODULE_PATH_LIMIT {
            PathStep::Done(buffer)
        } else {
            PathStep::Grow((2 * buffer) as usize)
        },
{
    if length < buffer {
        PathStep::Done(length)
    } else if buffer >= MODULE_PATH_LIMIT {
        PathStep::Done(buffer)
    } else {
        PathStep::Grow(buffer * 2)
    }
}

/// Whether a module is, or may be, the payload itself. While the payload's own
/// address is unknown every module may be.
pub fn is_self(recorded: usize, module: usize) -> (result: bool)
    ensures
        result == (recorded == 0 || recorded == module),
{
    recorded == 0 || recorded == module
}

/// The units that a system directory path may have at most.
pub const SYSTEM_DIRECTORY_LIMIT: usize = 260;

/// The full path of a system module, ended by a zero unit. `directory` is the
/// system directory as far as it fitted the buffer, `length` what was reported.
///
/// By its bare name the loader would return the payload, which is loaded under
/// that name already.
pub fn system_module_path(directory: &[u16], length: usize, name: &str) -> (path: Option<Vec<u16>>)
    requires
        length < SYSTEM_DIRECTORY_LIMIT ==> length <= directory@.len(),
    ensures
        match path {
            Some(units) => {
                &&& 0 < length < SYSTEM_DIRECTORY_LIMIT
                &&& units@ == directory@.take(length as int) + seq![SEPARATOR] + utf16(name@)
                    + seq![0u16]
            },
            None => length == 0 || length >= SYSTEM_DIRECTORY_LIMIT,
        },
{
    if length == 0 || length >= SYSTEM_DIRECTORY_LIMIT {
        return None;
    }
    let mut path: Vec<u16> = Vec::new();
    let part = vstd::slice::slice_subrange(directory, 0, length);
    path.extend_from_slice(part);
    path.push(SEPARATOR);
    let mut units = encode_wide(name);
    path.append(&mut units);
    path.push(0);
    assert(path@ =~= directory@.take(length as int) + seq![SEPARATOR] + utf16(name@) + seq![0u16]);
    Some(path)
}

/// An export of the payload.
#[derive(Clone, Copy, Debug, PartialEq, Eq, Structural)]
pub enum ProxyExport {
    /// The loader's entry point.
    DllMain,
    /// State of a controller.
    XInputGetState,
    /// Vibration of a controller.
    XInputSetState,
    /// Abilities of a controller.
    XInputGetCapabilities,
    /// Switches reporting on and off.
    XInputEnable,
    /// Battery of a controller.
    XInputGetBatteryInformation,
    /// Next key press of a controller.
    XInputGetKeystroke,
    /// Audio devices of a controller.
    XInputGetAudioDeviceIds,
    /// State with the guide button, without a name.
    XInputGetStateEx,
    /// Wait for the guide button, without a name.
    XInputWaitForGuideButton,
    /// Ends that wait, without a name.
    XInputCancelGuideButtonWait,
    /// Switches a controller off, without a name.
    XInputPowerOffController,
    /// More abilities of a controller, without a name.
    XInputGetCapabilitiesEx,
    /// Creates the DirectInput object.
    DirectInput8Create,
    /// Whether the module may be unloaded.
    DllCanUnloadNow,
    /// Creates a class object.
    DllGetClassObject,
    /// Registers the module.
    DllRegisterServer,
    /// Unregisters the module.
    DllUnregisterServer,
    /// Joystick data format.
    GetdfDIJoystick,
    /// The marker by which a deployer knows the payload.
    WsgmSteamInputGateProxy,
}

/// The number of exports.
pub const EXPORT_COUNT: usize = 20;

/// The number of exports with a name.
pub const NAMED_EXPORT_COUNT: usize = 15;

impl ProxyExport {
    /// The exports in the order of the definition: the named ones first.
    pub open spec fn numbered(index: int) -> ProxyExport {
        if index == 0 {
            ProxyExport::DllMain
        } else if index == 1 {
            ProxyExport::XInputGetState
        } else if index == 2 {
            ProxyExport::XInputSetState
        } else if index == 3 {
            ProxyExport::XInputGetCapabilities
        } else if index == 4 {
            ProxyExport::XInputEnable
        } else if index == 5 {
            ProxyExport::XInputGetBatteryInformation
        } else if index == 6 {
            ProxyExport::XInputGetKeystroke
        } else if index == 7 {
            ProxyExport::XInputGetAudioDeviceIds
        } else if index == 8 {
            ProxyExport::DirectInput8Create
        } else if index == 9 {
            ProxyExport::DllCanUnloadNow
        } else if index == 10 {
            ProxyExport::DllGetClassObject
        } else if index == 11 {
            ProxyExport::DllRegisterServer
        } else if index == 12 {
            ProxyExport::DllUnregisterServer
        } else if index == 13 {
            ProxyExport::GetdfDIJoystick
        } else if index == 14 {
            ProxyExport::WsgmSteamInputGateProxy
        } else if index == 15 {
            ProxyExport::XInputGetStateEx
        } else if index == 16 {
            ProxyExport::XInputWaitForGuideButton
        } else if index == 17 {
            ProxyExport::XInputCancelGuideButtonWait
        } else if index == 18 {
            ProxyExport::XInputPowerOffController
        } else {
            ProxyExport::XInputGetCapabilitiesEx
        }
    }

    /// Whether the real module exports it by its ordinal alone.
    pub open spec fn nameless(self) -> bool {
        ||| self is XInputGetStateEx
        ||| self is XInputWaitForGuideButton
        ||| self is XInputCancelGuideButtonWait
        ||| self is XInputPowerOffController
        ||| self is XInputGetCapabilitiesEx
    }

    /// Whether the real module exports it by its ordinal alone.
    pub fn is_nameless(self) -> (result: bool)
        ensures
            result == self.nameless(),
    {
        match self {
            ProxyExport::XInputGetStateEx
            | ProxyExport::XInputWaitForGuideButton
            | ProxyExport::XInputCancelGuideButtonWait
            | ProxyExport::XInputPowerOffController
            | ProxyExport::XInputGetCapabilitiesEx => true,
            _ => false,
        }
    }

    /// The export with a number.
    pub fn at(index: usize) -> (export: ProxyExport)
        requires
            index < EXPORT_COUNT,
        ensures
            export == ProxyExport::numbered(index as int),
    {
        match index {
            0 => ProxyExport::DllMain,
            1 => ProxyExport::XInputGetState,
            2 => ProxyExport::XInputSetState,
            3 => ProxyExport::XInputGetCapabilities,
            4 => ProxyExport::XInputEnable,
            5 => ProxyExport::XInputGetBatteryInformation,
            6 => ProxyExport::XInputGetKeystroke,
            7 => ProxyExport::XInputGetAudioDeviceIds,
            8 => ProxyExport::DirectInput8Create,
            9 => ProxyExport::DllCanUnloadNow,
            10 => ProxyExport::DllGetClassObject,
            11 => ProxyExport::DllRegisterServer,
            12 => ProxyExport::DllUnregisterServer,
            13 => ProxyExport::GetdfDIJoystick,
            14 => ProxyExport::WsgmSteamInputGateProxy,
            15 => ProxyExport::XInputGetStateEx,
            16 => ProxyExport::XInputWaitForGuideButton,
            17 => ProxyExport::XInputCancelGuideButtonWait,
            18 => ProxyExport::XInputPowerOffController,
            _ => ProxyExport::XInputGetCapabilitiesEx,
        }
    }

    /// The ordinal under which the export is found. Those of XInput are the real
    /// module's, including the unnamed ones; others stay out of its range, and two
    /// undocumented ordinals stay empty.
    pub open spec fn place(self) -> u16 {
        match self {
            ProxyExport::DllMain => 1,
            ProxyExport::XInputGetState => 2,
            ProxyExport::XInputSetState => 3,
            ProxyExport::XInputGetCapabilities => 4,
            ProxyExport::XInputEnable => 5,
            ProxyExport::XInputGetBatteryInformation => 7,
            ProxyExport::XInputGetKeystroke => 8,
            ProxyExport::XInputGetAudioDeviceIds => 10,
            ProxyExport::XInputGetStateEx => 100,
            ProxyExport::XInputWaitForGuideButton => 101,
            ProxyExport::XInputCancelGuideButtonWait => 102,
            ProxyExport::XInputPowerOffController => 103,
            ProxyExport::XInputGetCapabilitiesEx => 108,
            ProxyExport::DirectInput8Create => 200,
            ProxyExport::DllCanUnloadNow => 201,
            ProxyExport::DllGetClassObject => 202,
            ProxyExport::DllRegisterServer => 203,
            ProxyExport::DllUnregisterServer => 204,
            ProxyExport::GetdfDIJoystick => 205,
            ProxyExport::WsgmSteamInputGateProxy => 206,
        }
    }

    /// The ordinal under which the export is found.
    pub fn ordinal(self) -> (ordinal: u16)
        ensures
            ordinal == self.place(),
    {
        match self {
            ProxyExport::DllMain => 1,
            ProxyExport::XInputGetState => 2,
            ProxyExport::XInputSetState => 3,
            ProxyExport::XInputGetCapabilities => 4,
            ProxyExport::XInputEnable => 5,
            ProxyExport::XInputGetBatteryInformation => 7,
            ProxyExport::XInputGetKeystroke => 8,
            ProxyExport::XInputGetAudioDeviceIds => 10,
            ProxyExport::XInputGetStateEx => 100,
            ProxyExport::XInputWaitForGuideButton => 101,
            ProxyExport::XInputCancelGuideButtonWait => 102,
            ProxyExport::XInputPowerOffController => 103,
            ProxyExport::XInputGetCapabilitiesEx => 108,
            ProxyExport::DirectInput8Create => 200,
            ProxyExport::DllCanUnloadNow => 201,
            ProxyExport::DllGetClassObject => 202,
            ProxyExport::DllRegisterServer => 203,
            ProxyExport::DllUnregisterServer => 204,
            ProxyExport::GetdfDIJoystick => 205,
            ProxyExport::WsgmSteamInputGateProxy => 206,
        }
    }

    /// The export's symbol.
    pub open spec fn symbol(self) -> Seq<char> {
        match self {
            ProxyExport::DllMain => "DllMain"@,
            ProxyExport::XInputGetState => "XInputGetState"@,
            ProxyExport::XInputSetState => "XInputSetState"@,
            ProxyExport::XInputGetCapabilities => "XInputGetCapabilities"@,
            ProxyExport::XInputEnable => "XInputEnable"@,
            ProxyExport::XInputGetBatteryInformation => "XInputGetBatteryInformation"@,
            ProxyExport::XInputGetKeystroke => "XInputGetKeystroke"@,
            ProxyExport::XInputGetAudioDeviceIds => "XInputGetAudioDeviceIds"@,
            ProxyExport::XInputGetStateEx => "wsgm_xinput_ordinal_100"@,
            ProxyExport::XInputWaitForGuideButton => "wsgm_xinput_ordinal_101"@,
            ProxyExport::XInputCancelGuideButtonWait => "wsgm_xinput_ordinal_102"@,
            ProxyExport::XInputPowerOffController => "wsgm_xinput_ordinal_103"@,
            ProxyExport::XInputGetCapabilitiesEx => "wsgm_xinput_ordinal_108"@,
            ProxyExport::DirectInput8Create => "DirectInput8Create"@,
            ProxyExport::DllCanUnloadNow => "DllCanUnloadNow"@,
            ProxyExport::DllGetClassObject => "DllGetClassObject"@,
            ProxyExport::DllRegisterServer => "DllRegisterServer"@,
            ProxyExport::DllUnregisterServer => "DllUnregisterServer"@,
            ProxyExport::GetdfDIJoystick => "GetdfDIJoystick"@,
            ProxyExport::WsgmSteamInputGateProxy => "WsgmSteamInputGateProxy"@,
        }
    }

    /// The export's symbol.
    pub fn name(self) -> (name: &'static str)
        ensures
            name@ == self.symbol(),
    {
        match self {
            ProxyExport::DllMain => "DllMain",
            ProxyExport::XInputGetState => "XInputGetState",
            ProxyExport::XInputSetState => "XInputSetState",
            ProxyExport::XInputGetCapabilities => "XInputGetCapabilities",
            ProxyExport::XInputEnable => "XInputEnable",
            ProxyExport::XInputGetBatteryInformation => "XInputGetBatteryInformation",
            ProxyExport::XInputGetKeystroke => "XInputGetKeystroke",
            ProxyExport::XInputGetAudioDeviceIds => "XInputGetAudioDeviceIds",
            ProxyExport::XInputGetStateEx => "wsgm_xinput_ordinal_100",
            ProxyExport::XInputWaitForGuideButton => "wsgm_xinput_ordinal_101",
            ProxyExport::XInputCancelGuideButtonWait => "wsgm_xinput_ordinal_102",
            ProxyExport::XInputPowerOffController => "wsgm_xinput_ordinal_103",
            ProxyExport::XInputGetCapabilitiesEx => "wsgm_xinput_ordinal_108",
            ProxyExport::DirectInput8Create => "DirectInput8Create",
            ProxyExport::DllCanUnloadNow => "DllCanUnloadNow",
            ProxyExport::DllGetClassObject => "DllGetClassObject",
            ProxyExport::DllRegisterServer => "DllRegisterServer",
            ProxyExport::DllUnregisterServer => "DllUnregisterServer",
            ProxyExport::GetdfDIJoystick => "GetdfDIJoystick",
            ProxyExport::WsgmSteamInputGateProxy => "WsgmSteamInputGateProxy",
        }
    }

    /// Whether calls are denied while blocking is effective: those that report
    /// input.
    pub open spec fn gated(self) -> bool {
        self is XInputGetState || self is XInputGetCapabilities || self is XInputGetStateEx
            || self is XInputGetCapabilitiesEx
    }

    /// Whether a vector is useless without the export's target.
    pub open spec fn required(self) -> bool {
        self is XInputGetState || self is XInputGetCapabilities || self is XInputSetState
            || self is DirectInput8Create
    }

    /// The vector whose real module has the export's target.
    pub open spec fn vector(self) -> Option<Vector> {
        match self {
            ProxyExport::DllMain | ProxyExport::WsgmSteamInputGateProxy => None,
            ProxyExport::DirectInput8Create
            | ProxyExport::DllCanUnloadNow
            | ProxyExport::DllGetClassObject
            | ProxyExport::DllRegisterServer
            | ProxyExport::DllUnregisterServer
            | ProxyExport::GetdfDIJoystick => Some(Vector::DInput8),
            _ => Some(Vector::XInput14),
        }
    }

    /// Whether calls are denied while blocking is effective.
    pub fn is_gated(self) -> (result: bool)
        ensures
            result == self.gated(),
    {
        match self {
            ProxyExport::XInputGetState => true,
            ProxyExport::XInputGetCapabilities => true,
            ProxyExport::XInputGetStateEx => true,
            ProxyExport::XInputGetCapabilitiesEx => true,
            _ => false,
        }
    }

    /// Whether a vector is useless without the export's target.
    pub fn is_required(self) -> (result: bool)
        ensures
            result == self.required(),
    {
        match self {
            ProxyExport::XInputGetState => true,
            ProxyExport::XInputGetCapabilities => true,
            ProxyExport::XInputSetState => true,
            ProxyExport::DirectInput8Create => true,
            _ => false,
        }
    }

    /// Whether the export forwards to the real module of a vector.
    pub fn forwards_to(self, vector: Vector) -> (result: bool)
        ensures
            result == (self.vector() == Some(vector)),
    {
        match self {
            ProxyExport::DllMain | ProxyExport::WsgmSteamInputGateProxy => false,
            ProxyExport::DirectInput8Create
            | ProxyExport::DllCanUnloadNow
            | ProxyExport::DllGetClassObject
            | ProxyExport::DllRegisterServer
            | ProxyExport::DllUnregisterServer
            | ProxyExport::GetdfDIJoystick => vector == Vector::DInput8,
            _ => vector == Vector::XInput14,
        }
    }
}

/// No two exports share an ordinal, and the undocumented ordinals 104 and 109 of
/// the real module stay empty.
pub proof fn law_export_ordinals_are_distinct(first: ProxyExport, second: ProxyExport)
    ensures
        first.place() == second.place() ==> first == second,
        first.place() != 104,
        first.place() != 109,
{
}

/// Every export has a number.
pub proof fn law_every_export_is_numbered(export: ProxyExport)
    ensures
        exists|index: int|
            0 <= index < EXPORT_COUNT && #[trigger] ProxyExport::numbered(index) == export,
{
    let index: int = match export {
        ProxyExport::DllMain => 0,
        ProxyExport::XInputGetState => 1,
        ProxyExport::XInputSetState => 2,
        ProxyExport::XInputGetCapabilities => 3,
        ProxyExport::XInputEnable => 4,
        ProxyExport::XInputGetBatteryInformation => 5,
        ProxyExport::XInputGetKeystroke => 6,
        ProxyExport::XInputGetAudioDeviceIds => 7,
        ProxyExport::DirectInput8Create => 8,
        ProxyExport::DllCanUnloadNow => 9,
        ProxyExport::DllGetClassObject => 10,
        ProxyExport::DllRegisterServer => 11,
        ProxyExport::DllUnregisterServer => 12,
        ProxyExport::GetdfDIJoystick => 13,
        ProxyExport::WsgmSteamInputGateProxy => 14,
        ProxyExport::XInputGetStateEx => 15,
        ProxyExport::XInputWaitForGuideButton => 16,
        ProxyExport::XInputCancelGuideButtonWait => 17,
        ProxyExport::XInputPowerOffController => 18,
        ProxyExport::XInputGetCapabilitiesEx => 19,
    };
    assert(ProxyExport::numbered(index) == export);
}

/// One line of the linker's module definition.
pub open spec fn definition_line(export: ProxyExport, named: bool) -> Seq<char> {
    if named {
        "  "@ + export.symbol() + " @"@ + decimal(export.place() as nat) + "\n"@
    } else {
        "  wsgm_ord_"@ + decimal(export.place() as nat) + "="@ + export.symbol() + " @"@ + decimal(
            export.place() as nat,
        ) + " NONAME\n"@
    }
}

/// The lines of the first `count` exports.
pub open spec fn definition_lines(count: int) -> Seq<char>
    decreases count,
{
    if count <= 0 {
        Seq::empty()
    } else {
        definition_lines(count - 1) + definition_line(
            ProxyExport::numbered(count - 1),
            count - 1 < NAMED_EXPORT_COUNT,
        )
    }
}

fn push_definition_line(text: &mut String, export: ProxyExport, named: bool)
    ensures
        final(text)@ == old(text)@ + definition_line(export, named),
{
    if named {
        text.append("  ");
        text.append(export.name());
        text.append(" @");
        push_decimal(text, export.ordinal() as u64);
        text.append("\n");
    } else {
        text.append("  wsgm_ord_");
        push_decimal(text, export.ordinal() as u64);
        text.append("=");
        text.append(export.name());
        text.append(" @");
        push_decimal(text, export.ordinal() as u64);
        text.append(" NONAME\n");
    }
    assert(text@ =~= old(text)@ + definition_line(export, named));
}

/// The module definition that gives every export its ordinal.
pub fn export_definition() -> (text: String)
    ensures
        text@ == "LIBRARY steam_input_gate\nEXPORTS\n"@ + definition_lines(EXPORT_COUNT as int),
{
    let mut text = String::new();
    text.append("LIBRARY steam_input_gate\nEXPORTS\n");
    let mut index: usize = 0;
    assert(text@ =~= "LIBRARY steam_input_gate\nEXPORTS\n"@ + definition_lines(0));
    while index < EXPORT_COUNT
        invariant
            index <= EXPORT_COUNT,
            text@ == "LIBRARY steam_input_gate\nEXPORTS\n"@ + definition_lines(index as int),
        decreases EXPORT_COUNT - index,
    {
        push_definition_line(&mut text, ProxyExport::at(index), index < NAMED_EXPORT_COUNT);
        index = index + 1;
        assert(text@ =~= "LIBRARY steam_input_gate\nEXPORTS\n"@ + definition_lines(index as int));
    }
    text
}

/// What a call of an export comes to.
#[derive(Clone, Copy, Debug, PartialEq, Eq, Structural)]
pub enum ForwardDecision {
    /// Answer as if nothing were connected, and count that it was too early.
    NotReady,
    /// Answer as if nothing were connected.
    Disconnected,
    /// Call the real function.
    Forward,
}

/// Decides a call of an export.
///
/// Before the worker released forwarding, nothing is resolved and no loader is
/// entered on the caller's thread.
pub fn forward_call(export: ProxyExport, ready: bool, blocking: bool, target_known: bool) -> (
    decision: ForwardDecision)
    ensures
        decision == if !ready {
            ForwardDecision::NotReady
        } else if (export.gated() && blocking) || !target_known {
            ForwardDecision::Disconnected
        } else {
            ForwardDecision::Forward
        },
{
    if !ready {
        ForwardDecision::NotReady
    } else if (export.is_gated() && blocking) || !target_known {
        ForwardDecision::Disconnected
    } else {
        ForwardDecision::Forward
    }
}

/// How many targets of a vector's exports are missing.
pub open spec fn missing_targets(
    vector: Vector,
    found: Seq<bool>,
    required: bool,
    count: int,
) -> int
    decreases count,
{
    if count <= 0 {
        0
    } else {
        let export = ProxyExport::numbered(count - 1);
        let before = missing_targets(vector, found, required, count - 1);
        if export.vector() == Some(vector) && export.required() == required && !found[count - 1] {
            before + 1
        } else {
            before
        }
    }
}

/// The outcome of resolving a vector's targets.
#[derive(Clone, Copy, Debug, PartialEq, Eq, Structural)]
pub struct Forwarding {
    /// Whether calls may be forwarded.
    pub ready: bool,
    /// Required targets that are missing.
    pub missing_required: usize,
    /// Optional targets that are missing.
    pub missing_optional: usize,
}

/// Whether forwarding was released, and whether that was tried. A failure is
/// remembered: no call can try again.
#[derive(Clone, Copy, Debug, PartialEq, Eq, Structural)]
pub struct Bootstrap {
    /// The outcome of the only attempt.
    pub outcome: Option<Forwarding>,
}

impl Bootstrap {
    /// Blocked, with nothing tried.
    pub fn new() -> (bootstrap: Bootstrap)
        ensures
            bootstrap.outcome is None,
    {
        Bootstrap { outcome: None }
    }

    /// Whether calls may be forwarded.
    pub open spec fn released(self) -> bool {
        self.outcome is Some && self.outcome->0.ready
    }

    /// Whether calls may be forwarded.
    pub fn ready(&self) -> (result: bool)
        ensures
            result == self.released(),
    {
        match self.outcome {
            Some(forwarding) => forwarding.ready,
            None => false,
        }
    }

    /// Takes which targets were found, by the numbers of their exports, and
    /// releases forwarding where the vector is a proxy whose real module was
    /// loaded and no required target is missing.
    pub fn initialize_forwarding(
        &mut self,
        vector: Vector,
        module_loaded: bool,
        found: &[bool],
    ) -> (released: bool)
        requires
            found@.len() == EXPORT_COUNT,
        ensures
            released == final(self).released(),
            match old(self).outcome {
                Some(known) => final(self).outcome == Some(known),
                None => {
                    let required = missing_targets(vector, found@, true, EXPORT_COUNT as int);
                    let optional = missing_targets(vector, found@, false, EXPORT_COUNT as int);
                    final(self).outcome == Some(
                        Forwarding {
                            ready: module_loaded && (vector is XInput14 || vector is DInput8)
                                && required == 0,
                            missing_required: required as usize,
                            missing_optional: optional as usize,
                        },
                    )
                },
            },
    {
        if self.outcome.is_none() {
            let missing_required: usize = count_missing(vector, found, true);
            let missing_optional: usize = count_missing(vector, found, false);
            self.outcome = Some(
                Forwarding {
                    ready: module_loaded && vector.is_proxy() && missing_required == 0,
                    missing_required,
                    missing_optional,
                },
            );
        }
        self.ready()
    }
}

fn count_missing(vector: Vector, found: &[bool], required: bool) -> (count: usize)
    requires
        found@.len() == EXPORT_COUNT,
    ensures
        count == missing_targets(vector, found@, required, EXPORT_COUNT as int),
{
    let mut count: usize = 0;
    let mut index: usize = 0;
    while index < EXPORT_COUNT
        invariant
            index <= EXPORT_COUNT,
            found@.len() == EXPORT_COUNT,
            count <= index,
            count == missing_targets(vector, found@, required, index as int),
        decreases EXPORT_COUNT - index,
    {
        let export = ProxyExport::at(index);
        if export.forwards_to(vector) && export.is_required() == required && !found[index] {
            count = count + 1;
        }
        index = index + 1;
    }
    count
}

proof fn lemma_nothing_missing(vector: Vector, found: Seq<bool>, count: int, index: int)
    requires
        0 <= index < count <= EXPORT_COUNT,
        missing_targets(vector, found, true, count) == 0,
        ProxyExport::numbered(index).vector() == Some(vector),
        ProxyExport::numbered(index).required(),
    ensures
        found[index],
    decreases count,
{
    lemma_missing_is_positive(vector, found, true, count - 1);
    if index < count - 1 {
        lemma_nothing_missing(vector, found, count - 1, index);
    }
}

proof fn lemma_missing_is_positive(vector: Vector, found: Seq<bool>, required: bool, count: int)
    ensures
        missing_targets(vector, found, required, count) >= 0,
    decreases count,
{
    if count > 0 {
        lemma_missing_is_positive(vector, found, required, count - 1);
    }
}

/// Once forwarding is released, every required target of the vector is known.
pub proof fn law_release_needs_every_required_target(vector: Vector, found: Seq<bool>, index: int)
    requires
        missing_targets(vector, found, true, EXPORT_COUNT as int) == 0,
        0 <= index < EXPORT_COUNT,
        ProxyExport::numbered(index).vector() == Some(vector),
        ProxyExport::numbered(index).required(),
    ensures
        found[index],
{
    lemma_nothing_missing(vector, found, EXPORT_COUNT as int, index);
}

/// A vector is told by its name alone, in whatever case, and every other name is unknown.
pub proof fn law_vectors_are_told_by_name(name: Seq<u16>)
    ensures
        vector_of(name) == Vector::XInput14 <==> is_ascii_text_like(name, "xinput1_4.dll"@),
        vector_of(name) == Vector::DInput8 <==> is_ascii_text_like(name, "dinput8.dll"@),
        vector_of(name) == Vector::Injected <==> is_ascii_text_like(name, "steam_input_gate.dll"@),
{
    reveal_strlit("xinput1_4.dll");
    reveal_strlit("dinput8.dll");
    reveal_strlit("steam_input_gate.dll");
}

/// A path is judged by what stands behind its last backslash, whatever stands before it.
pub proof fn law_a_path_is_judged_by_its_last_part(directory: Seq<u16>, name: Seq<u16>)
    requires
        !name.contains(92),
    ensures
        behind_backslash(directory.push(92) + name) == name,
        behind_backslash(name) == name,
    decreases name.len(),
{
    let path = directory.push(92) + name;
    if name.len() == 0 {
        assert(path =~= directory.push(92));
        assert(behind_backslash(path) =~= name);
        assert(behind_backslash(name) =~= name);
    } else {
        let fewer = name.drop_last();
        assert(name.contains(name[name.len() - 1]));
        assert forall|unit: u16| fewer.contains(unit) implies name.contains(unit) by {
            let at = choose|at: int| 0 <= at < fewer.len() && fewer[at] == unit;
            assert(name[at] == unit);
        }
        law_a_path_is_judged_by_its_last_part(directory, fewer);
        assert(path.drop_last() =~= directory.push(92) + fewer);
        assert(path.last() == name.last());
        assert(fewer.push(name.last()) =~= name);
    }
}

/// The ordinal of an export tells what it is: the real XInput module's own, named up to ten
/// and nameless from a hundred on, or one of the DirectInput module's from two hundred on.
/// The entry point and the marker forward nowhere.
pub proof fn law_ordinals_tell_the_module(export: ProxyExport)
    ensures
        export.vector() == Some(Vector::XInput14) <==> 2 <= export.place() <= 108,
        export.vector() == Some(Vector::DInput8) <==> 200 <= export.place() <= 205,
        export.vector() is None <==> export.place() == 1 || export.place() == 206,
        export.nameless() <==> 100 <= export.place() < 200,
{
}

/// Denied while blocking are exactly the calls by which input is seen, by name and by
/// ordinal: the state and the abilities of a controller, and both in their longer form.
/// Useless without them are the state, the abilities and the vibration of a controller,
/// and the creation of the DirectInput object.
pub proof fn law_input_is_seen_through_four_exports(export: ProxyExport)
    ensures
        export.gated() <==> export.place() == 2 || export.place() == 4 || export.place() == 100
            || export.place() == 108,
        export.required() <==> export.place() == 2 || export.place() == 3 || export.place() == 4
            || export.place() == 200,
        export.gated() ==> export.vector() == Some(Vector::XInput14),
        export.required() ==> !export.nameless(),
{
}

/// Every XInput export stands at the real module's ordinal.
pub proof fn law_xinput_ordinals_are_the_real_ones(export: ProxyExport)
    ensures
        export is XInputGetState <==> export.place() == 2,
        export is XInputSetState <==> export.place() == 3,
        export is XInputGetCapabilities <==> export.place() == 4,
        export is XInputEnable <==> export.place() == 5,
        export is XInputGetBatteryInformation <==> export.place() == 7,
        export is XInputGetKeystroke <==> export.place() == 8,
        export is XInputGetAudioDeviceIds <==> export.place() == 10,
        export is XInputGetStateEx <==> export.place() == 100,
        export is XInputWaitForGuideButton <==> export.place() == 101,
        export is XInputCancelGuideButtonWait <==> export.place() == 102,
        export is XInputPowerOffController <==> export.place() == 103,
        export is XInputGetCapabilitiesEx <==> export.place() == 108,
{
}

/// The twenty numbers name twenty different exports, the nameless ones behind the others.
pub proof fn law_exports_are_numbered_once(first: int, second: int)
    requires
        0 <= first < 20,
        0 <= second < 20,
    ensures
        ProxyExport::numbered(first) == ProxyExport::numbered(second) ==> first == second,
        ProxyExport::numbered(first).nameless() <==> first >= 15,
{
}

/// Each export adds one line to the definition behind those before it: its symbol and its
/// ordinal, and for a nameless one that it has no name.
pub proof fn law_every_export_has_its_line(count: int)
    requires
        0 <= count < 20,
    ensures
        ({
            let export = ProxyExport::numbered(count);
            let line = definition_lines(count + 1).skip(definition_lines(count).len() as int);
            &&& definition_lines(count + 1).take(definition_lines(count).len() as int)
                == definition_lines(count)
            &&& !export.nameless() ==> line == "  "@ + export.symbol() + " @"@ + decimal(
                export.place() as nat,
            ) + "\n"@
            &&& export.nameless() ==> line == "  wsgm_ord_"@ + decimal(export.place() as nat)
                + "="@ + export.symbol() + " @"@ + decimal(export.place() as nat) + " NONAME\n"@
        }),
        definition_lines(0).len() == 0,
{
    law_exports_are_numbered_once(count, count);
    let export = ProxyExport::numbered(count);
    let before = definition_lines(count);
    let after = definition_lines(count + 1);
    assert(after.take(before.len() as int) =~= before);
    assert(after.skip(before.len() as int) =~= definition_line(export, count < NAMED_EXPORT_COUNT));
}

/// Nothing is missing where every target of the kind was found, and each one that was not
/// counts once: finding one more target takes it off the count.
pub proof fn law_missing_targets_are_counted_once(
    vector: Vector,
    found: Seq<bool>,
    required: bool,
    index: int,
    count: int,
)
    requires
        0 <= index < found.len(),
        0 <= count <= found.len(),
        !found[index],
    ensures
        ({
            let export = ProxyExport::numbered(index);
            let counted = index < count && export.vector() == Some(vector) && export.required()
                == required;
            missing_targets(vector, found, required, count) == missing_targets(
                vector,
                found.update(index, true),
                required,
                count,
            ) + if counted {
                1int
            } else {
                0
            }
        }),
    decreases count,
{
    if count > 0 {
        law_missing_targets_are_counted_once(vector, found, required, index, count - 1);
    }
}

/// Where every target is found, none is missing.
pub proof fn law_nothing_is_missing_where_all_is_found(
    vector: Vector,
    found: Seq<bool>,
    required: bool,
    count: int,
)
    requires
        0 <= count <= 20,
        forall|index: int|
            0 <= index < count && #[trigger] ProxyExport::numbered(index).vector() == Some(vector)
                && ProxyExport::numbered(index).required() == required ==> found[index],
    ensures
        missing_targets(vector, found, required, count) == 0,
    decreases count,
{
    if count > 0 {
        law_nothing_is_missing_where_all_is_found(vector, found, required, count - 1);
        let export = ProxyExport::numbered(count - 1);
        assert(export.vector() == Some(vector) && export.required() == required ==> found[count
            - 1]);
    }
}

/// Calls may be forwarded exactly where the only attempt came to that.
pub proof fn law_forwarding_is_released_by_its_attempt(bootstrap: Bootstrap)
    ensures
        bootstrap.released() <==> (bootstrap.outcome matches Some(forwarding) && forwarding.ready),
{
}

} // verus!
