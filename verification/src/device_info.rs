//! Device identity discovery from system sources.

use crate::dmi::{
    dmi_of, read_dmi, told_names_hold_something, unless_empty, DmiInfo, DmiInfoView,
};
use crate::text::{
    chars_of, ends_line, field, find_end, find_field, find_start,
    first_line_with_the_key_gives_the_value, is_white_space, lacks,
    lines_with_other_keys_are_passed_over, lines_without_separator_are_passed_over, names_key, trim,
    trim_end, trimming_gives_back_the_core, trimming_the_end_gives_back_the_front, CharClass,
};
use vstd::prelude::*;
use vstd::string::StrSliceExecFns;

verus! {

/// What the device is called where nothing says otherwise.
pub const DEFAULT_NAME: &'static str = "adibi";

/// Identity information advertised during the CNXN handshake.
#[derive(Debug)]
pub struct DeviceInfo {
    /// Device serial number (from DMI, `/proc/cpuinfo`, or `/etc/machine-id`).
    pub serial: String,
    /// Human-readable device name (from `/etc/os-release` `PRETTY_NAME`).
    pub name: String,
    /// Hardware model (from DMI product, `/proc/cpuinfo`, or device-tree).
    pub model: String,
    /// Short device identifier (from `/etc/hostname`).
    pub device: String,
}

/// Identity information as a value.
pub struct DeviceInfoView {
    pub serial: Seq<char>,
    pub name: Seq<char>,
    pub model: Seq<char>,
    pub device: Seq<char>,
}

impl View for DeviceInfo {
    type V = DeviceInfoView;

    open spec fn view(&self) -> DeviceInfoView {
        DeviceInfoView {
            serial: self.serial@,
            name: self.name@,
            model: self.model@,
            device: self.device@,
        }
    }
}

/// What the system has to say, as far as it can be read.
#[derive(Debug)]
pub struct SystemSources {
    /// `/sys/firmware/dmi/tables/smbios_entry_point`
    pub smbios_entry_point: Option<Vec<u8>>,
    /// `/sys/firmware/dmi/tables/DMI`
    pub dmi_table: Option<Vec<u8>>,
    /// `/proc/cpuinfo`
    pub cpuinfo: Option<String>,
    /// `/proc/device-tree/model`
    pub device_tree_model: Option<String>,
    /// `/etc/os-release`
    pub os_release: Option<String>,
    /// `/etc/machine-id`
    pub machine_id: Option<String>,
    /// `/etc/hostname`
    pub hostname: Option<String>,
}

/// A text that may be missing, as a value.
pub open spec fn text_view(text: Option<String>) -> Option<Seq<char>> {
    match text {
        Some(s) => Some(s@),
        None => None,
    }
}

/// A text, unless it is empty.
pub fn non_empty(s: &str) -> (res: Option<String>)
    ensures
        text_view(res) == unless_empty(s@),
{
    if s.is_empty() {
        None
    } else {
        Some(s.to_owned())
    }
}

/// The value of a field of `/proc/cpuinfo`: the lines hold a key and a value with a colon between
/// them, and white space around both.
pub open spec fn cpuinfo_field(contents: Seq<char>, key: Seq<char>) -> Option<Seq<char>> {
    match field(contents, ':', key, true) {
        Some(value) => unless_empty(trim(value, CharClass::WhiteSpace)),
        None => None,
    }
}

/// The pretty name in `/etc/os-release`: the lines hold a key and a value with an equals sign
/// between them, and the value may stand in double quotes.
pub open spec fn os_pretty_name(contents: Seq<char>) -> Option<Seq<char>> {
    match field(contents, '=', "PRETTY_NAME"@, false) {
        Some(value) => unless_empty(trim(value, CharClass::Only('"'))),
        None => None,
    }
}

/// The model in the device tree: without the NULs behind it, and the white space around it.
pub open spec fn device_tree_model(contents: Seq<char>) -> Option<Seq<char>> {
    unless_empty(trim(trim_end(contents, CharClass::Only('\0')), CharClass::WhiteSpace))
}

/// A file that holds one word: without the white space around it.
pub open spec fn single_word(contents: Seq<char>) -> Option<Seq<char>> {
    unless_empty(trim(contents, CharClass::WhiteSpace))
}

/// The text between two positions without the characters of a class around it, unless it is
/// empty.
fn trimmed(text: &str, chars: &Vec<char>, from: usize, to: usize, class: CharClass) -> (res: Option<
    String,
>)
    requires
        chars@ == text@,
        from <= to <= chars@.len(),
    ensures
        text_view(res) == unless_empty(trim(chars@.subrange(from as int, to as int), class)),
{
    let start: usize = find_start(chars, from, to, class);
    let end: usize = find_end(chars, start, to, class);
    non_empty(text.substring_char(start, end))
}

/// Reads a field of `/proc/cpuinfo`.
pub fn read_cpuinfo_field(contents: &str, key: &str) -> (res: Option<String>)
    ensures
        text_view(res) == cpuinfo_field(contents@, key@),
{
    let chars: Vec<char> = chars_of(contents);
    match find_field(&chars, ':', key, true) {
        Some((from, to)) => trimmed(contents, &chars, from, to, CharClass::WhiteSpace),
        None => None,
    }
}

/// Reads the model in the device tree.
pub fn read_device_tree_model(contents: &str) -> (res: Option<String>)
    ensures
        text_view(res) == device_tree_model(contents@),
{
    let chars: Vec<char> = chars_of(contents);
    assert(chars@.subrange(0, chars@.len() as int) =~= contents@);
    let end: usize = find_end(&chars, 0, chars.len(), CharClass::Only('\0'));
    trimmed(contents, &chars, 0, end, CharClass::WhiteSpace)
}

/// Reads the pretty name in `/etc/os-release`.
pub fn read_os_pretty_name(contents: &str) -> (res: Option<String>)
    ensures
        text_view(res) == os_pretty_name(contents@),
{
    let chars: Vec<char> = chars_of(contents);
    match find_field(&chars, '=', "PRETTY_NAME", false) {
        Some((from, to)) => trimmed(contents, &chars, from, to, CharClass::Only('"')),
        None => None,
    }
}

/// Reads a file that holds one word.
fn read_word(contents: &str) -> (res: Option<String>)
    ensures
        text_view(res) == single_word(contents@),
{
    let chars: Vec<char> = chars_of(contents);
    assert(chars@.subrange(0, chars@.len() as int) =~= contents@);
    trimmed(contents, &chars, 0, chars.len(), CharClass::WhiteSpace)
}

/// Reads `/etc/machine-id`.
pub fn read_machine_id(contents: &str) -> (res: Option<String>)
    ensures
        text_view(res) == single_word(contents@),
{
    read_word(contents)
}

/// Reads `/etc/hostname`.
pub fn read_hostname(contents: &str) -> (res: Option<String>)
    ensures
        text_view(res) == single_word(contents@),
{
    read_word(contents)
}

/// The first of three texts that is there, or the default name.
pub open spec fn first_of(
    a: Option<Seq<char>>,
    b: Option<Seq<char>>,
    c: Option<Seq<char>>,
) -> Seq<char> {
    match (a, b, c) {
        (Some(s), _, _) => s,
        (None, Some(s), _) => s,
        (None, None, Some(s)) => s,
        _ => DEFAULT_NAME@,
    }
}

/// What a rule finds in a source, if the source can be read.
pub open spec fn found_in(
    source: Option<String>,
    rule: spec_fn(Seq<char>) -> Option<Seq<char>>,
) -> Option<Seq<char>> {
    match source {
        Some(contents) => rule(contents@),
        None => None,
    }
}

impl SystemSources {
    /// What the DMI tables tell, if both can be read and the structure table is sound.
    pub open spec fn dmi(self) -> Option<DmiInfoView> {
        match (self.smbios_entry_point, self.dmi_table) {
            (Some(entry), Some(table)) => match dmi_of(entry@, table@) {
                Ok(info) => info,
                Err(_) => None,
            },
            _ => None,
        }
    }

    /// The identity that the sources add up to, given what the DMI tables tell.
    pub open spec fn identity(self, dmi: Option<DmiInfoView>) -> DeviceInfoView {
        DeviceInfoView {
            serial: first_of(
                match dmi {
                    Some(info) => info.serial,
                    None => None,
                },
                found_in(self.cpuinfo, |s: Seq<char>| cpuinfo_field(s, "Serial"@)),
                found_in(self.machine_id, |s: Seq<char>| single_word(s)),
            ),
            name: first_of(found_in(self.os_release, |s: Seq<char>| os_pretty_name(s)), None, None),
            model: first_of(
                match dmi {
                    Some(info) => info.product,
                    None => None,
                },
                found_in(self.cpuinfo, |s: Seq<char>| cpuinfo_field(s, "Model"@)),
                found_in(self.device_tree_model, |s: Seq<char>| device_tree_model(s)),
            ),
            device: first_of(found_in(self.hostname, |s: Seq<char>| single_word(s)), None, None),
        }
    }

    /// Reads the DMI tables.
    fn read_dmi(&self) -> (res: Option<DmiInfo>)
        ensures
            self.dmi() == (match res {
                Some(info) => Some(info@),
                None => None,
            }),
    {
        match (&self.smbios_entry_point, &self.dmi_table) {
            (Some(entry), Some(table)) => match read_dmi(entry.as_slice(), table.as_slice()) {
                Ok(info) => info,
                Err(_) => None,
            },
            _ => None,
        }
    }

    /// Reads a field of `/proc/cpuinfo`, if that can be read.
    fn cpuinfo_field(&self, key: &str) -> (res: Option<String>)
        ensures
            text_view(res) == found_in(self.cpuinfo, |s: Seq<char>| cpuinfo_field(s, key@)),
    {
        match &self.cpuinfo {
            Some(contents) => read_cpuinfo_field(contents.as_str(), key),
            None => None,
        }
    }
}

/// The first of three texts that is there, or the default name.
fn choose_first(a: Option<String>, b: Option<String>, c: Option<String>) -> (res: String)
    ensures
        res@ == first_of(text_view(a), text_view(b), text_view(c)),
{
    if let Some(s) = a {
        return s;
    }
    if let Some(s) = b {
        return s;
    }
    match c {
        Some(s) => s,
        None => DEFAULT_NAME.to_owned(),
    }
}

impl DeviceInfo {
    /// Puts the identity together from system sources, given what the DMI tables tell, falling
    /// back to defaults where a source is unavailable.
    pub fn from_sources(sources: &SystemSources, dmi: Option<DmiInfo>) -> (res: Self)
        ensures
            res@ == sources.identity(
                match dmi {
                    Some(info) => Some(info@),
                    None => None,
                },
            ),
    {
        let (product, dmi_serial): (Option<String>, Option<String>) = match dmi {
            Some(info) => (info.product, info.serial),
            None => (None, None),
        };
        let machine_id: Option<String> = match &sources.machine_id {
            Some(contents) => read_machine_id(contents.as_str()),
            None => None,
        };
        let pretty_name: Option<String> = match &sources.os_release {
            Some(contents) => read_os_pretty_name(contents.as_str()),
            None => None,
        };
        let tree_model: Option<String> = match &sources.device_tree_model {
            Some(contents) => read_device_tree_model(contents.as_str()),
            None => None,
        };
        let hostname: Option<String> = match &sources.hostname {
            Some(contents) => read_hostname(contents.as_str()),
            None => None,
        };
        DeviceInfo {
            serial: choose_first(dmi_serial, sources.cpuinfo_field("Serial"), machine_id),
            name: choose_first(pretty_name, None, None),
            model: choose_first(product, sources.cpuinfo_field("Model"), tree_model),
            device: choose_first(hostname, None, None),
        }
    }

    /// Discovers device identity from system sources.
    ///
    /// Probes DMI tables, `/proc/cpuinfo`, device-tree, `/etc/os-release`, `/etc/machine-id`, and
    /// `/etc/hostname`, falling back to defaults when a source is unavailable. An unsound DMI table
    /// is a source that is unavailable.
    pub fn from_system(sources: &SystemSources) -> (res: Self)
        ensures
            res@ == sources.identity(sources.dmi()),
    {
        DeviceInfo::from_sources(sources, sources.read_dmi())
    }
}

/// Where no source says anything, every part of the identity is the default name.
pub proof fn identity_has_defaults(sources: SystemSources)
    requires
        sources.smbios_entry_point is None || sources.dmi_table is None,
        sources.cpuinfo is None,
        sources.device_tree_model is None,
        sources.os_release is None,
        sources.machine_id is None,
        sources.hostname is None,
    ensures
        sources.identity(sources.dmi()) == (DeviceInfoView {
            serial: DEFAULT_NAME@,
            name: DEFAULT_NAME@,
            model: DEFAULT_NAME@,
            device: DEFAULT_NAME@,
        }),
{
}

/// No part of the identity is ever empty.
pub proof fn identity_is_never_empty(sources: SystemSources)
    ensures
        ({
            let identity = sources.identity(sources.dmi());
            &&& identity.serial.len() > 0
            &&& identity.name.len() > 0
            &&& identity.model.len() > 0
            &&& identity.device.len() > 0
        }),
{
    reveal_strlit("adibi");
    if let (Some(entry), Some(table)) = (sources.smbios_entry_point, sources.dmi_table) {
        told_names_hold_something(entry@, table@);
    }
}

/// A text that begins and ends with something else than white space, or is empty.
pub open spec fn is_trimmed(s: Seq<char>) -> bool {
    s.len() > 0 ==> !is_white_space(s[0]) && !is_white_space(s.last())
}

/// Nothing but white space.
pub open spec fn is_blank(s: Seq<char>) -> bool {
    forall|i: int| 0 <= i < s.len() ==> is_white_space(#[trigger] s[i])
}

/// A field of `/proc/cpuinfo` is found by its key, and its value told without the white space
/// around it, whatever lines follow; an empty value is none.
pub proof fn cpuinfo_tells_its_fields(
    indent: Seq<char>,
    key: Seq<char>,
    before: Seq<char>,
    after: Seq<char>,
    value: Seq<char>,
    behind: Seq<char>,
    ending: Seq<char>,
    rest: Seq<char>,
)
    requires
        is_blank(indent) && is_blank(before) && is_blank(after) && is_blank(behind),
        is_trimmed(key) && is_trimmed(value),
        lacks(key, ':'),
        lacks(indent + key + before + seq![':'] + (after + value + behind), '\n'),
        ends_line(indent + key + before + seq![':'] + (after + value + behind), ending, rest),
    ensures
        cpuinfo_field(
            indent + key + before + seq![':'] + (after + value + behind) + ending + rest,
            key,
        ) == if value.len() > 0 {
            Some(value)
        } else {
            None
        },
{
    let k = indent + key + before;
    let v = after + value + behind;
    let class = CharClass::WhiteSpace;
    assert forall|i: int| 0 <= i < k.len() implies #[trigger] k[i] != ':' by {
        if i < indent.len() {
            assert(is_white_space(indent[i]));
        } else if i < indent.len() + key.len() {
            assert(key[i - indent.len()] != ':');
        } else {
            assert(is_white_space(before[i - indent.len() - key.len()]));
        }
    }
    assert forall|i: int| 0 <= i < indent.len() implies class.has(#[trigger] indent[i]) by {}
    assert forall|i: int| 0 <= i < before.len() implies class.has(#[trigger] before[i]) by {}
    assert forall|i: int| 0 <= i < after.len() implies class.has(#[trigger] after[i]) by {}
    assert forall|i: int| 0 <= i < behind.len() implies class.has(#[trigger] behind[i]) by {}
    trimming_gives_back_the_core(indent, key, before, class);
    trimming_gives_back_the_core(after, value, behind, class);
    first_line_with_the_key_gives_the_value(k, ':', v, ending, rest, key, true);
}

/// Lines of `/proc/cpuinfo` that name another key, or none, are passed over.
pub proof fn cpuinfo_passes_over_other_lines(
    k: Seq<char>,
    value: Seq<char>,
    line: Seq<char>,
    ending: Seq<char>,
    rest: Seq<char>,
    key: Seq<char>,
)
    requires
        lacks(k, ':'),
        !names_key(k, key, true),
        lacks(k + seq![':'] + value, '\n'),
        ends_line(k + seq![':'] + value, ending, rest),
        lacks(line, ':'),
        lacks(line, '\n'),
        ends_line(line, ending, rest),
    ensures
        cpuinfo_field(k + seq![':'] + value + ending + rest, key) == cpuinfo_field(rest, key),
        cpuinfo_field(line + ending + rest, key) == cpuinfo_field(rest, key),
{
    lines_with_other_keys_are_passed_over(k, ':', value, ending, rest, key, true);
    lines_without_separator_are_passed_over(line, ':', ending, rest, key, true);
}

/// The pretty name is told without the quotes around it, whatever lines follow; an empty name is
/// none.
pub proof fn os_release_tells_the_pretty_name(
    open: nat,
    value: Seq<char>,
    close: nat,
    ending: Seq<char>,
    rest: Seq<char>,
)
    requires
        value.len() > 0 ==> value[0] != '"' && value.last() != '"',
        lacks(value, '\n'),
        ({
            let quoted = Seq::new(open, |i: int| '"') + value + Seq::new(close, |i: int| '"');
            ends_line("PRETTY_NAME"@ + seq!['='] + quoted, ending, rest)
        }),
    ensures
        ({
            let quoted = Seq::new(open, |i: int| '"') + value + Seq::new(close, |i: int| '"');
            os_pretty_name("PRETTY_NAME"@ + seq!['='] + quoted + ending + rest)
        }) == if value.len() > 0 {
            Some(value)
        } else {
            None
        },
{
    reveal_strlit("PRETTY_NAME");
    let left = Seq::new(open, |i: int| '"');
    let right = Seq::new(close, |i: int| '"');
    let quoted = left + value + right;
    let line = "PRETTY_NAME"@ + seq!['='] + quoted;
    assert forall|i: int| 0 <= i < line.len() implies #[trigger] line[i] != '\n' by {
        if i >= 12 {
            assert(line[i] == quoted[i - 12]);
            if open <= i - 12 < open + value.len() {
                assert(quoted[i - 12] == value[i - 12 - open]);
            }
        }
    }
    trimming_gives_back_the_core(left, value, right, CharClass::Only('"'));
    first_line_with_the_key_gives_the_value(
        "PRETTY_NAME"@,
        '=',
        quoted,
        ending,
        rest,
        "PRETTY_NAME"@,
        false,
    );
}

/// Lines of `/etc/os-release` that name another key, or none, are passed over.
pub proof fn os_release_passes_over_other_lines(
    k: Seq<char>,
    value: Seq<char>,
    line: Seq<char>,
    ending: Seq<char>,
    rest: Seq<char>,
)
    requires
        lacks(k, '='),
        k != "PRETTY_NAME"@,
        lacks(k + seq!['='] + value, '\n'),
        ends_line(k + seq!['='] + value, ending, rest),
        lacks(line, '='),
        lacks(line, '\n'),
        ends_line(line, ending, rest),
    ensures
        os_pretty_name(k + seq!['='] + value + ending + rest) == os_pretty_name(rest),
        os_pretty_name(line + ending + rest) == os_pretty_name(rest),
{
    lines_with_other_keys_are_passed_over(k, '=', value, ending, rest, "PRETTY_NAME"@, false);
    lines_without_separator_are_passed_over(line, '=', ending, rest, "PRETTY_NAME"@, false);
}

/// A word is told without the white space around it, and the model in the device tree also
/// without the NULs behind it; where nothing is left, there is none.
pub proof fn words_are_told_as_they_are(
    before: Seq<char>,
    word: Seq<char>,
    behind: Seq<char>,
    nuls: nat,
)
    requires
        is_blank(before) && is_blank(behind),
        is_trimmed(word),
        word.len() > 0 && behind.len() == 0 ==> word.last() != '\0',
    ensures
        single_word(before + word + behind) == if word.len() > 0 {
            Some(word)
        } else {
            None
        },
        device_tree_model(before + word + behind + Seq::new(nuls, |i: int| '\0')) == if word.len()
            > 0 {
            Some(word)
        } else {
            None
        },
{
    let class = CharClass::WhiteSpace;
    let text = before + word + behind;
    assert forall|i: int| 0 <= i < before.len() implies class.has(#[trigger] before[i]) by {}
    assert forall|i: int| 0 <= i < behind.len() implies class.has(#[trigger] behind[i]) by {}
    trimming_gives_back_the_core(before, word, behind, class);
    if text.len() > 0 {
        if behind.len() > 0 {
            assert(is_white_space(behind[behind.len() - 1]));
            assert(text.last() == behind[behind.len() - 1]);
        } else if word.len() > 0 {
            assert(text.last() == word.last());
        } else {
            assert(is_white_space(before[before.len() - 1]));
            assert(text.last() == before[before.len() - 1]);
        }
    }
    trimming_the_end_gives_back_the_front(
        text,
        Seq::new(nuls, |i: int| '\0'),
        CharClass::Only('\0'),
    );
}

/// The sources are asked in order, and the first that tells is believed: for the serial number the
/// DMI tables, `/proc/cpuinfo` and `/etc/machine-id`, for the model the DMI tables,
/// `/proc/cpuinfo` and the device tree, for the name `/etc/os-release` and for the device
/// `/etc/hostname`. Where none tells, it is `adibi`.
pub proof fn sources_are_asked_in_order(sources: SystemSources, dmi: Option<DmiInfoView>)
    ensures
        ({
            let told = sources.identity(dmi);
            let dmi_serial = if dmi is Some {
                dmi->0.serial
            } else {
                None
            };
            let dmi_product = if dmi is Some {
                dmi->0.product
            } else {
                None
            };
            let cpu_serial = if sources.cpuinfo is Some {
                cpuinfo_field(sources.cpuinfo->0@, "Serial"@)
            } else {
                None
            };
            let cpu_model = if sources.cpuinfo is Some {
                cpuinfo_field(sources.cpuinfo->0@, "Model"@)
            } else {
                None
            };
            let machine = if sources.machine_id is Some {
                single_word(sources.machine_id->0@)
            } else {
                None
            };
            let tree = if sources.device_tree_model is Some {
                device_tree_model(sources.device_tree_model->0@)
            } else {
                None
            };
            let pretty = if sources.os_release is Some {
                os_pretty_name(sources.os_release->0@)
            } else {
                None
            };
            let host = if sources.hostname is Some {
                single_word(sources.hostname->0@)
            } else {
                None
            };
            &&& dmi_serial is Some ==> told.serial == dmi_serial->0
            &&& dmi_serial is None && cpu_serial is Some ==> told.serial == cpu_serial->0
            &&& dmi_serial is None && cpu_serial is None && machine is Some ==> told.serial
                == machine->0
            &&& dmi_serial is None && cpu_serial is None && machine is None ==> told.serial
                == "adibi"@
            &&& dmi_product is Some ==> told.model == dmi_product->0
            &&& dmi_product is None && cpu_model is Some ==> told.model == cpu_model->0
            &&& dmi_product is None && cpu_model is None && tree is Some ==> told.model == tree->0
            &&& dmi_product is None && cpu_model is None && tree is None ==> told.model
                == "adibi"@
            &&& pretty is Some ==> told.name == pretty->0
            &&& pretty is None ==> told.name == "adibi"@
            &&& host is Some ==> told.device == host->0
            &&& host is None ==> told.device == "adibi"@
        }),
{
}

/// What sound DMI tables tell is what counts, if both can be read; tables that are unsound count
/// as none.
pub proof fn tables_tell_if_both_are_there(
    sources: SystemSources,
    entry: Vec<u8>,
    table: Vec<u8>,
)
    requires
        sources.smbios_entry_point == Some(entry),
        sources.dmi_table == Some(table),
    ensures
        dmi_of(entry@, table@) matches Ok(told) ==> sources.dmi() == told,
        dmi_of(entry@, table@) is Err ==> sources.dmi() is None,
{
}

} // verus!
