//! Product name and serial number from SMBIOS/DMI tables.
//!
//! The tables are decoded by the `dmidecode` crate, which trusts them: it reads the fields of a
//! structure without asking whether the table holds them. So a table is walked here first, from
//! structure to structure, and none is handed to the decoder that it could not bear.

use crate::device_info::non_empty;
use vstd::prelude::*;
use vstd::slice::slice_subrange;

verus! {

/// Product name and serial extracted from SMBIOS/DMI tables.
#[derive(Debug)]
pub struct DmiInfo {
    /// The product name, if there is one.
    pub product: Option<String>,
    /// The serial number, if there is one.
    pub serial: Option<String>,
}

/// Product name and serial as values.
pub struct DmiInfoView {
    pub product: Option<Seq<char>>,
    pub serial: Option<Seq<char>>,
}

/// A text, unless it is empty.
pub open spec fn unless_empty(s: Seq<char>) -> Option<Seq<char>> {
    if s.len() == 0 {
        None
    } else {
        Some(s)
    }
}

impl View for DmiInfo {
    type V = DmiInfoView;

    open spec fn view(&self) -> DmiInfoView {
        DmiInfoView {
            product: match self.product {
                Some(s) => Some(s@),
                None => None,
            },
            serial: match self.serial {
                Some(s) => Some(s@),
                None => None,
            },
        }
    }
}

/// What the names in a System structure tell.
pub open spec fn info_of(product: Seq<char>, serial: Seq<char>) -> DmiInfoView {
    DmiInfoView { product: unless_empty(product), serial: unless_empty(serial) }
}

/// What the names in a System structure tell.
pub fn dmi_info(product: &str, serial: &str) -> (res: DmiInfo)
    ensures
        res@ == info_of(product@, serial@),
{
    DmiInfo { product: non_empty(product), serial: non_empty(serial) }
}

/// What an SMBIOS entry point says of the table.
#[derive(Clone, Copy, Debug, PartialEq, Eq, Structural)]
pub struct SmbiosEntry {
    /// Major version of the table.
    pub major: u8,
    /// Minor version of the table.
    pub minor: u8,
    /// Length of the table, or the most that it can have.
    pub table_len: u32,
}

/// The major and minor version and the table length in the SMBIOS entry point that bytes hold,
/// if they hold one: what `EntryPoint::search` finds.
pub uninterp spec fn smbios_entry(entry: Seq<u8>) -> Option<(u8, u8, u32)>;

/// The product name and serial number in the structure that a table begins with, if that is a
/// well-formed System structure: what `EntryPoint::structures` yields first.
pub uninterp spec fn smbios_system(entry: Seq<u8>, table: Seq<u8>) -> Option<
    (Seq<char>, Seq<char>),
>;

/// Finds the SMBIOS entry point that bytes hold.
///
/// Calls `EntryPoint::search` of `dmidecode`, and reads `major`, `minor` and `smbios_len` of what
/// it finds. What is believed of it: the outcome depends on the bytes alone.
#[verifier::external_body]
fn search_entry(entry: &[u8]) -> (res: Option<SmbiosEntry>)
    ensures
        match res {
            Some(e) => smbios_entry(entry@) == Some((e.major, e.minor, e.table_len)),
            None => smbios_entry(entry@) is None,
        },
{
    match dmidecode::EntryPoint::search(entry) {
        Ok(e) => Some(SmbiosEntry { major: e.major(), minor: e.minor(), table_len: e.smbios_len() }),
        Err(_) => None,
    }
}

/// Decodes the structure that a table begins with.
///
/// Calls `EntryPoint::search` and the iterator of `EntryPoint::structures` of `dmidecode`. What is
/// believed of them: where the table begins with a structure that can be decoded, and no count in
/// it overflows, what the iterator yields first depends on the entry point and the table alone.
#[verifier::external_body]
fn first_system(entry: &[u8], table: &[u8]) -> (res: Option<(String, String)>)
    requires
        smbios_entry(entry@) matches Some((major, minor, table_len)) && table_step(
            SmbiosEntry { major, minor, table_len },
            table@,
            0,
        ) is Whole,
        !counts_overflow(table@),
    ensures
        match res {
            Some((product, serial)) => smbios_system(entry@, table@) == Some((product@, serial@)),
            None => smbios_system(entry@, table@) is None,
        },
{
    match dmidecode::EntryPoint::search(entry) {
        Ok(e) => match e.structures(table).next() {
            Some(Ok(dmidecode::Structure::System(system))) => {
                Some((system.product.to_owned(), system.serial.to_owned()))
            },
            _ => None,
        },
        Err(_) => None,
    }
}

impl SmbiosEntry {
    /// The version is this one or a later one.
    pub open spec fn since(self, major: u8, minor: u8) -> bool {
        self.major > major || (self.major == major && self.minor >= minor)
    }

    /// Whether the version is this one or a later one.
    pub fn is_since(&self, major: u8, minor: u8) -> (res: bool)
        ensures
            res == self.since(major, minor),
    {
        self.major > major || (self.major == major && self.minor >= minor)
    }

    /// How many bytes behind the header of a structure are read without asking for its length.
    pub open spec fn record_size(self, kind: u8) -> nat {
        match kind {
            0 => if self.since(3, 1) {
                22
            } else if self.since(2, 4) {
                20
            } else {
                14
            },
            1 => if self.since(2, 4) {
                23
            } else if self.since(2, 1) {
                21
            } else {
                4
            },
            2 => 10,
            4 => if self.since(3, 0) {
                44
            } else if self.since(2, 6) {
                38
            } else if self.since(2, 5) {
                36
            } else if self.since(2, 3) {
                31
            } else if self.since(2, 1) {
                28
            } else {
                22
            },
            7 => if self.since(3, 2) {
                23
            } else if self.since(2, 2) {
                15
            } else {
                11
            },
            8 => 5,
            13 => if self.since(2, 1) {
                18
            } else {
                17
            },
            _ => 0,
        }
    }

    /// How many bytes behind the header of a structure are read without asking for its length.
    fn read_size(&self, kind: u8) -> (res: usize)
        ensures
            res == self.record_size(kind),
            res <= 44,
    {
        match kind {
            0 => if self.is_since(3, 1) {
                22
            } else if self.is_since(2, 4) {
                20
            } else {
                14
            },
            1 => if self.is_since(2, 4) {
                23
            } else if self.is_since(2, 1) {
                21
            } else {
                4
            },
            2 => 10,
            4 => if self.is_since(3, 0) {
                44
            } else if self.is_since(2, 6) {
                38
            } else if self.is_since(2, 5) {
                36
            } else if self.is_since(2, 3) {
                31
            } else if self.is_since(2, 1) {
                28
            } else {
                22
            },
            7 => if self.is_since(3, 2) {
                23
            } else if self.is_since(2, 2) {
                15
            } else {
                11
            },
            8 => 5,
            13 => if self.is_since(2, 1) {
                18
            } else {
                17
            },
            _ => 0,
        }
    }
}

/// The structure that a table begins with can be decoded: what is read of it lies in the table,
/// and its own lengths and counts are such that the decoder can go by them.
pub open spec fn decodable(e: SmbiosEntry, table: Seq<u8>) -> bool {
    let kind = table[0];
    let len = table[1];
    &&& len >= 4
    &&& 4 + e.record_size(kind) <= table.len()
    &&& match kind {
        7 => e.since(2, 1),
        15 => !(e.since(2, 1) && len == 0x17 && table[0x16] == 0),
        16 => {
            &&& e.since(2, 2) ==> len >= 15
            &&& e.since(2, 8) && table.subrange(7, 11) == seq![0u8, 0, 0, 0x80] ==> len >= 23
        },
        _ => true,
    }
}

/// The structure that a table begins with is a chassis or a group whose counts overflow the
/// decoder's arithmetic: the elements of the chassis take more than 255 bytes, or the group has
/// no room for its name. Where overflow is not checked for, the decoder goes on to the next
/// structure.
pub open spec fn counts_overflow(table: Seq<u8>) -> bool {
    match table[0] {
        3 => table[1] >= 21 && table[19] * table[20] > 255,
        14 => table[1] == 4,
        _ => false,
    }
}

/// The product name and serial number in the structure that a table begins with, if that is a
/// well-formed System structure. A chassis or a group is none, whatever becomes of its counts.
pub open spec fn first_names(entry: Seq<u8>, table: Seq<u8>) -> Option<(Seq<char>, Seq<char>)> {
    if counts_overflow(table) {
        None
    } else {
        smbios_system(entry, table)
    }
}

/// Where the strings end that begin at `from`: behind the first two zero bytes in a row.
pub open spec fn strings_end(table: Seq<u8>, from: int) -> Option<int>
    decreases table.len() - from,
{
    if from + 1 >= table.len() {
        None
    } else if table[from] == 0 && table[from + 1] == 0 {
        Some(from + 2)
    } else {
        strings_end(table, from + 1)
    }
}

/// What stands at an offset of a table.
pub enum TableStep {
    /// Nothing more: the table ends here.
    End,
    /// A structure that is cut off; nothing more can be found behind it.
    Broken,
    /// A structure.
    Whole {
        /// Where the next one stands.
        next: usize,
        /// Whether it says that none follows.
        last: bool,
    },
    /// Something that the decoder cannot bear.
    Unsound,
}

/// What stands at an offset, as a value.
pub enum TableStepView {
    End,
    Broken,
    Whole(int, bool),
    Unsound,
}

impl View for TableStep {
    type V = TableStepView;

    open spec fn view(&self) -> TableStepView {
        match self {
            TableStep::End => TableStepView::End,
            TableStep::Broken => TableStepView::Broken,
            TableStep::Whole { next, last } => TableStepView::Whole(*next as int, *last),
            TableStep::Unsound => TableStepView::Unsound,
        }
    }
}

/// What stands at an offset of a table. A structure has a kind, the length of its formatted part
/// and a handle in front; strings follow the formatted part. From version 3 on kind 127 ends the
/// table. Offsets are counted in 32 bits.
pub open spec fn table_step(e: SmbiosEntry, table: Seq<u8>, at: int) -> TableStepView {
    let rest = table.skip(at);
    if at + 4 > e.table_len {
        TableStepView::End
    } else if rest.len() < 4 {
        TableStepView::Unsound
    } else if at + rest[1] >= e.table_len {
        TableStepView::Broken
    } else if rest[1] > rest.len() {
        TableStepView::Unsound
    } else {
        match strings_end(rest, rest[1] as int) {
            None => TableStepView::Broken,
            Some(end) => if at + end <= u32::MAX && decodable(e, rest) {
                TableStepView::Whole(at + end, e.major >= 3 && rest[0] == 127)
            } else {
                TableStepView::Unsound
            },
        }
    }
}

/// A structure can be looked at by itself, as the first one of the table that begins with it.
proof fn lemma_first_step(e: SmbiosEntry, table: Seq<u8>, at: int)
    requires
        0 <= at <= table.len(),
        table_step(e, table, at) is Whole,
    ensures
        table_step(e, table.skip(at), 0) is Whole,
{
    assert(table.skip(at).skip(0) =~= table.skip(at));
}

proof fn lemma_strings_end(table: Seq<u8>, from: int)
    ensures
        strings_end(table, from) matches Some(next) ==> from + 2 <= next <= table.len(),
    decreases table.len() - from,
{
    if from + 1 < table.len() && !(table[from] == 0 && table[from + 1] == 0) {
        lemma_strings_end(table, from + 1);
    }
}

/// Finds where the strings end that begin at `from`.
fn find_strings_end(table: &[u8], from: usize) -> (res: Option<usize>)
    requires
        from <= table@.len(),
    ensures
        match res {
            Some(next) => strings_end(table@, from as int) == Some(next as int),
            None => strings_end(table@, from as int) is None,
        },
{
    let mut i: usize = from;
    while i < table.len() && table.len() - i > 1
        invariant
            from <= i <= table@.len(),
            strings_end(table@, from as int) == strings_end(table@, i as int),
        decreases table@.len() - i,
    {
        if table[i] == 0 && table[i + 1] == 0 {
            return Some(i + 2);
        }
        i = i + 1;
    }
    None
}

/// Whether the structure that a table begins with can be decoded.
fn is_decodable(e: &SmbiosEntry, table: &[u8]) -> (res: bool)
    requires
        4 <= table@.len(),
        table@[1] <= table@.len(),
    ensures
        res == decodable(*e, table@),
{
    let kind: u8 = table[0];
    let len: u8 = table[1];
    if len < 4 || e.read_size(kind) > table.len() - 4 {
        return false;
    }
    match kind {
        7 => e.is_since(2, 1),
        15 => !(e.is_since(2, 1) && len == 0x17 && table[0x16] == 0),
        16 => {
            if e.is_since(2, 2) && len < 15 {
                return false;
            }
            if !e.is_since(2, 8) || len >= 23 {
                return true;
            }
            let unknown: bool = table[7] == 0 && table[8] == 0 && table[9] == 0 && table[10]
                == 0x80;
            proof {
                let field = table@.subrange(7, 11);
                let none = seq![0u8, 0, 0, 0x80];
                assert(field[0] == table@[7] && field[1] == table@[8] && field[2] == table@[9]
                    && field[3] == table@[10]);
                if unknown {
                    assert(field =~= none);
                } else {
                    assert(none[0] == 0 && none[1] == 0 && none[2] == 0 && none[3] == 0x80);
                }
            }
            !unknown
        },
        _ => true,
    }
}

/// Whether the structure that a table begins with is a chassis or a group whose counts overflow
/// the decoder's arithmetic.
fn do_counts_overflow(table: &[u8]) -> (res: bool)
    requires
        4 <= table@.len(),
        table@[1] <= table@.len(),
    ensures
        res == counts_overflow(table@),
{
    match table[0] {
        3 => {
            if table[1] < 21 {
                return false;
            }
            let count: u32 = table[19] as u32;
            let size: u32 = table[20] as u32;
            assert(count * size <= 255 * 255) by (nonlinear_arith)
                requires
                    count <= 255,
                    size <= 255,
            ;
            count * size > 255
        },
        14 => table[1] == 4,
        _ => false,
    }
}

/// Tells what stands at an offset of a table.
pub fn next_structure(e: &SmbiosEntry, table: &[u8], at: usize) -> (res: TableStep)
    requires
        at <= table@.len(),
    ensures
        res@ == table_step(*e, table@, at as int),
        res matches TableStep::Whole { next, .. } ==> at < next <= table@.len(),
{
    let limit: u64 = e.table_len as u64;
    if at as u64 > limit || limit - (at as u64) < 4 {
        return TableStep::End;
    }
    let rest: &[u8] = slice_subrange(table, at, table.len());
    assert(rest@ =~= table@.skip(at as int));
    if rest.len() < 4 {
        return TableStep::Unsound;
    }
    let len: usize = rest[1] as usize;
    if at as u64 + len as u64 >= limit {
        return TableStep::Broken;
    }
    if len > rest.len() {
        return TableStep::Unsound;
    }
    proof {
        lemma_strings_end(rest@, len as int);
    }
    match find_strings_end(rest, len) {
        None => TableStep::Broken,
        Some(end) => {
            let next: usize = at + end;
            if next as u64 <= u32::MAX as u64 && is_decodable(e, rest) {
                TableStep::Whole { next, last: e.major >= 3 && rest[0] == 127 }
            } else {
                TableStep::Unsound
            }
        },
    }
}

/// A table that the decoder cannot bear.
#[derive(Clone, Copy, Debug, PartialEq, Eq, Structural)]
pub struct UnsoundTable;

/// What the first well-formed System structure from an offset on tells; nothing if there is none.
pub open spec fn dmi_from(e: SmbiosEntry, entry: Seq<u8>, table: Seq<u8>, at: int) -> Result<
    Option<DmiInfoView>,
    UnsoundTable,
>
    decreases table.len() - at,
{
    match table_step(e, table, at) {
        TableStepView::Unsound => Err(UnsoundTable),
        TableStepView::End | TableStepView::Broken => Ok(None),
        TableStepView::Whole(next, last) => match first_names(entry, table.skip(at)) {
            Some((product, serial)) => Ok(Some(info_of(product, serial))),
            None => if last || next <= at || next > table.len() {
                Ok(None)
            } else {
                dmi_from(e, entry, table, next)
            },
        },
    }
}

/// What an entry point and a table tell: the names in the first well-formed System structure. A
/// table that the decoder cannot bear as far as that structure is unsound.
pub open spec fn dmi_of(entry: Seq<u8>, table: Seq<u8>) -> Result<
    Option<DmiInfoView>,
    UnsoundTable,
> {
    match smbios_entry(entry) {
        None => Ok(None),
        Some((major, minor, table_len)) => dmi_from(
            SmbiosEntry { major, minor, table_len },
            entry,
            table,
            0,
        ),
    }
}

/// Reads product name and serial number from an SMBIOS entry point and table.
///
/// # Errors
///
/// Returns an error where the table is unsound.
pub fn read_dmi(entry: &[u8], table: &[u8]) -> (res: Result<Option<DmiInfo>, UnsoundTable>)
    ensures
        match res {
            Ok(Some(info)) => dmi_of(entry@, table@) == Ok::<Option<DmiInfoView>, UnsoundTable>(
                Some(info@),
            ),
            Ok(None) => dmi_of(entry@, table@) == Ok::<Option<DmiInfoView>, UnsoundTable>(None),
            Err(e) => dmi_of(entry@, table@) == Err::<Option<DmiInfoView>, UnsoundTable>(e),
        },
{
    let e: SmbiosEntry = match search_entry(entry) {
        Some(e) => e,
        None => {
            return Ok(None);
        },
    };
    let mut at: usize = 0;
    loop
        invariant
            smbios_entry(entry@) == Some((e.major, e.minor, e.table_len)),
            at <= table@.len(),
            dmi_of(entry@, table@) == dmi_from(e, entry@, table@, at as int),
        decreases table@.len() - at,
    {
        match next_structure(&e, table, at) {
            TableStep::End | TableStep::Broken => {
                return Ok(None);
            },
            TableStep::Unsound => {
                return Err(UnsoundTable);
            },
            TableStep::Whole { next, last } => {
                let rest: &[u8] = slice_subrange(table, at, table.len());
                assert(rest@ =~= table@.skip(at as int));
                proof {
                    lemma_first_step(e, table@, at as int);
                }
                if !do_counts_overflow(rest) {
                    if let Some((product, serial)) = first_system(entry, rest) {
                        return Ok(Some(dmi_info(product.as_str(), serial.as_str())));
                    }
                }
                if last {
                    return Ok(None);
                }
                at = next;
            },
        }
    }
}

/// Neither name is ever empty.
pub open spec fn names_hold_something(info: DmiInfoView) -> bool {
    &&& info.product matches Some(s) ==> s.len() > 0
    &&& info.serial matches Some(s) ==> s.len() > 0
}

proof fn lemma_names_hold_something(e: SmbiosEntry, entry: Seq<u8>, table: Seq<u8>, at: int)
    ensures
        dmi_from(e, entry, table, at) matches Ok(Some(info)) ==> names_hold_something(info),
    decreases table.len() - at,
{
    if let TableStepView::Whole(next, last) = table_step(e, table, at) {
        if first_names(entry, table.skip(at)) is None && !last && at < next <= table.len() {
            lemma_names_hold_something(e, entry, table, next);
        }
    }
}

/// A name that the DMI tables tell is never empty.
pub proof fn told_names_hold_something(entry: Seq<u8>, table: Seq<u8>)
    ensures
        dmi_of(entry, table) matches Ok(Some(info)) ==> names_hold_something(info),
{
    if let Some((major, minor, table_len)) = smbios_entry(entry) {
        lemma_names_hold_something(SmbiosEntry { major, minor, table_len }, entry, table, 0);
    }
}

/// How far behind its first byte a structure is read, by kind and version. No structure that has
/// the length which its version prescribes is shorter.
pub open spec fn reach(major: u8, minor: u8, kind: u8) -> nat {
    let version = 0x100 * major + minor;
    match kind {
        0 => if version >= 0x301 {
            26
        } else if version >= 0x204 {
            24
        } else {
            18
        },
        1 => if version >= 0x204 {
            27
        } else if version >= 0x201 {
            25
        } else {
            8
        },
        2 => 14,
        4 => if version >= 0x300 {
            48
        } else if version >= 0x206 {
            42
        } else if version >= 0x205 {
            40
        } else if version >= 0x203 {
            35
        } else if version >= 0x201 {
            32
        } else {
            26
        },
        7 => if version >= 0x302 {
            27
        } else if version >= 0x202 {
            19
        } else {
            15
        },
        8 => 9,
        13 => if version >= 0x201 {
            22
        } else {
            21
        },
        _ => 4,
    }
}

/// The bytes of a table from a structure on hold the structure: a formatted part of at least four
/// bytes, and strings that end at `end`, behind the first two zero bytes in a row.
pub open spec fn holds_structure(rest: Seq<u8>, end: int) -> bool {
    &&& 4 <= rest[1]
    &&& rest[1] + 2 <= end <= rest.len()
    &&& rest[end - 2] == 0 && rest[end - 1] == 0
    &&& forall|i: int| rest[1] <= i < end - 2 ==> !(#[trigger] rest[i] == 0 && rest[i + 1] == 0)
}

/// A structure that makes sense: a cache only from version 2.1 on, an event log whose descriptors
/// have a length, and a memory array that has all its fields.
pub open spec fn makes_sense(major: u8, minor: u8, rest: Seq<u8>) -> bool {
    match rest[0] {
        7 => major > 2 || (major == 2 && minor >= 1),
        15 => rest[1] != 23 || rest[22] != 0,
        16 => rest[1] >= 23,
        _ => true,
    }
}

proof fn lemma_strings_end_at(table: Seq<u8>, from: int, end: int)
    requires
        0 <= from,
        from + 2 <= end <= table.len(),
        table[end - 2] == 0 && table[end - 1] == 0,
        forall|i: int| from <= i < end - 2 ==> !(#[trigger] table[i] == 0 && table[i + 1] == 0),
    ensures
        strings_end(table, from) == Some(end),
    decreases end - from,
{
    if from < end - 2 {
        assert(!(table[from] == 0 && table[from + 1] == 0));
        lemma_strings_end_at(table, from + 1, end);
    }
}

/// A structure that makes sense and lies in the table is walked over, to the structure behind it,
/// however long it is and wherever it stands; its strings may reach beyond the length that the
/// entry point tells. A structure of the length that its version prescribes is never read beyond.
pub proof fn structures_are_walked_over(e: SmbiosEntry, table: Seq<u8>, at: int, end: int)
    requires
        0 <= at <= table.len(),
        holds_structure(table.skip(at), end),
        makes_sense(e.major, e.minor, table.skip(at)),
        table.skip(at).len() >= reach(e.major, e.minor, table[at]),
        at + table[at + 1] < e.table_len,
        at + end <= u32::MAX,
    ensures
        table_step(e, table, at) == TableStepView::Whole(
            at + end,
            e.major >= 3 && table[at] == 127,
        ),
{
    let rest = table.skip(at);
    assert(rest[0] == table[at] && rest[1] == table[at + 1]);
    lemma_strings_end_at(rest, rest[1] as int, end);
}

proof fn lemma_strings_end_holds(table: Seq<u8>, from: int)
    requires
        0 <= from,
    ensures
        strings_end(table, from) matches Some(end) ==> {
            &&& from + 2 <= end <= table.len()
            &&& table[end - 2] == 0 && table[end - 1] == 0
            &&& forall|i: int|
                from <= i < end - 2 ==> !(#[trigger] table[i] == 0 && table[i + 1] == 0)
        },
    decreases table.len() - from,
{
    if from + 1 < table.len() && !(table[from] == 0 && table[from + 1] == 0) {
        lemma_strings_end_holds(table, from + 1);
    }
}

/// Only what lies in the table is walked over: a structure, with all that is read of it.
pub proof fn only_structures_are_walked_over(e: SmbiosEntry, table: Seq<u8>, at: int)
    requires
        0 <= at <= table.len(),
    ensures
        table_step(e, table, at) matches TableStepView::Whole(next, last) ==> {
            &&& holds_structure(table.skip(at), next - at)
            &&& table.skip(at).len() >= reach(e.major, e.minor, table[at])
            &&& table[at] == 7 ==> e.major > 2 || (e.major == 2 && e.minor >= 1)
            &&& last <==> e.major >= 3 && table[at] == 127
        },
        table_step(e, table, at) is End <==> at + 4 > e.table_len,
{
    let rest = table.skip(at);
    if rest.len() >= 2 {
        lemma_strings_end_holds(rest, rest[1] as int);
    }
}

/// A structure by itself, with the length that its version prescribes.
pub open spec fn is_structure(e: SmbiosEntry, s: Seq<u8>) -> bool {
    &&& s.len() >= 6
    &&& holds_structure(s, s.len() as int)
    &&& makes_sense(e.major, e.minor, s)
    &&& s[1] >= reach(e.major, e.minor, s[0])
}

/// A chassis whose elements take more than 255 bytes, or a group without room for its name.
pub open spec fn is_overfull(s: Seq<u8>) -> bool {
    ||| s[0] == 3 && s[1] >= 21 && s[19] * s[20] > 255
    ||| s[0] == 14 && s[1] == 4
}

/// From an offset on, a table holds these structures, and none of them is a System structure that
/// can be decoded, or ends the table.
pub open spec fn holds_others(
    e: SmbiosEntry,
    entry: Seq<u8>,
    table: Seq<u8>,
    at: int,
    others: Seq<Seq<u8>>,
) -> bool
    decreases others.len(),
{
    others.len() > 0 ==> {
        &&& is_structure(e, others[0])
        &&& !(e.major >= 3 && others[0][0] == 127)
        &&& is_overfull(others[0]) || smbios_system(entry, table.skip(at)) is None
        &&& holds_others(e, entry, table, at + others[0].len(), others.drop_first())
    }
}

proof fn lemma_structure_in_table(
    e: SmbiosEntry,
    entry: Seq<u8>,
    table: Seq<u8>,
    at: int,
    s: Seq<u8>,
    tail: Seq<u8>,
)
    requires
        0 <= at <= table.len(),
        table.skip(at) == s + tail,
        is_structure(e, s),
        at + s[1] < e.table_len,
        at + s.len() <= u32::MAX,
    ensures
        table_step(e, table, at) == TableStepView::Whole(
            at + s.len(),
            e.major >= 3 && s[0] == 127,
        ),
        first_names(entry, table.skip(at)) == if is_overfull(s) {
            None
        } else {
            smbios_system(entry, table.skip(at))
        },
{
    let rest = table.skip(at);
    assert forall|i: int| 0 <= i < s.len() implies #[trigger] rest[i] == s[i] by {}
    assert(table[at] == rest[0] && table[at + 1] == rest[1]);
    assert(rest[1] == s[1]);
    assert forall|i: int| rest[1] <= i < s.len() - 2 implies !(#[trigger] rest[i] == 0 && rest[i + 1]
        == 0) by {
        assert(!(s[i] == 0 && s[i + 1] == 0));
    }
    if s[0] == 15 && s[1] == 23 {
        assert(rest[22] == s[22]);
    }
    if s[0] == 3 && s[1] >= 21 {
        assert(rest[19] == s[19] && rest[20] == s[20]);
    }
    structures_are_walked_over(e, table, at, s.len() as int);
}

proof fn lemma_others_are_passed_over(
    e: SmbiosEntry,
    entry: Seq<u8>,
    table: Seq<u8>,
    at: int,
    others: Seq<Seq<u8>>,
    tail: Seq<u8>,
)
    requires
        0 <= at <= table.len(),
        table.skip(at) == others.flatten() + tail,
        at + others.flatten().len() <= e.table_len,
        holds_others(e, entry, table, at, others),
    ensures
        dmi_from(e, entry, table, at) == dmi_from(e, entry, table, at + others.flatten().len()),
    decreases others.len(),
{
    if others.len() > 0 {
        let first = others[0];
        let rest = others.drop_first();
        assert(others.flatten() =~= first + rest.flatten());
        assert(others.flatten() + tail =~= first + (rest.flatten() + tail));
        lemma_structure_in_table(e, entry, table, at, first, rest.flatten() + tail);
        let next = at + first.len();
        assert(table.skip(next) =~= table.skip(at).skip(first.len() as int));
        assert(table.skip(next) =~= rest.flatten() + tail);
        lemma_others_are_passed_over(e, entry, table, next, rest, tail);
    }
}

/// The first System structure tells. Let a table hold structures of the lengths that its version
/// prescribes, a System structure with a product name and a serial number among them, and in
/// front of that none that can be decoded. Then these two are what the table tells, whatever the
/// other structures are and whatever follows.
pub proof fn first_system_structure_tells(
    entry: Seq<u8>,
    e: SmbiosEntry,
    others: Seq<Seq<u8>>,
    system: Seq<u8>,
    tail: Seq<u8>,
    product: Seq<char>,
    serial: Seq<char>,
)
    requires
        smbios_entry(entry) == Some((e.major, e.minor, e.table_len)),
        others.flatten().len() + system[1] < e.table_len,
        others.flatten().len() + system.len() <= u32::MAX,
        holds_others(e, entry, others.flatten() + system + tail, 0, others),
        is_structure(e, system),
        system[0] == 1,
        smbios_system(entry, system + tail) == Some((product, serial)),
    ensures
        dmi_of(entry, others.flatten() + system + tail) == Ok::<
            Option<DmiInfoView>,
            UnsoundTable,
        >(
            Some(
                DmiInfoView {
                    product: if product.len() > 0 {
                        Some(product)
                    } else {
                        None
                    },
                    serial: if serial.len() > 0 {
                        Some(serial)
                    } else {
                        None
                    },
                },
            ),
        ),
{
    let table = others.flatten() + system + tail;
    assert(table.skip(0) =~= table);
    let at = others.flatten().len() as int;
    assert(table.skip(at) =~= system + tail);
    assert(table =~= others.flatten() + (system + tail));
    lemma_others_are_passed_over(e, entry, table, 0, others, system + tail);
    lemma_structure_in_table(e, entry, table, at, system, tail);
}

/// A table without System structure tells nothing: where the table ends behind the structures that
/// it holds, and, from version 3 on, where the end marker stands there, whatever follows that.
pub proof fn tables_without_system_structure_tell_nothing(
    entry: Seq<u8>,
    e: SmbiosEntry,
    others: Seq<Seq<u8>>,
    marker: Seq<u8>,
    tail: Seq<u8>,
)
    requires
        smbios_entry(entry) == Some((e.major, e.minor, e.table_len)),
        holds_others(e, entry, others.flatten() + marker + tail, 0, others),
        ({
            ||| others.flatten().len() <= e.table_len < others.flatten().len() + 4
            ||| {
                &&& others.flatten().len() + marker[1] < e.table_len
                &&& others.flatten().len() + marker.len() <= u32::MAX
                &&& e.major >= 3
                &&& is_structure(e, marker)
                &&& marker[0] == 127
                &&& smbios_system(entry, marker + tail) is None
            }
        }),
    ensures
        dmi_of(entry, others.flatten() + marker + tail) == Ok::<
            Option<DmiInfoView>,
            UnsoundTable,
        >(None),
{
    let table = others.flatten() + marker + tail;
    assert(table.skip(0) =~= table);
    let at = others.flatten().len() as int;
    assert(table.skip(at) =~= marker + tail);
    assert(table =~= others.flatten() + (marker + tail));
    lemma_others_are_passed_over(e, entry, table, 0, others, marker + tail);
    if at + 4 <= e.table_len {
        lemma_structure_in_table(e, entry, table, at, marker, tail);
    }
}

/// A structure that the entry point's length cuts off, or whose strings do not end, ends the search
/// without a result. A header or a formatted part outside the table, and a formatted part without
/// room for the header, make the table unsound.
pub proof fn cut_off_structures_end_the_search(
    e: SmbiosEntry,
    entry: Seq<u8>,
    table: Seq<u8>,
    at: int,
)
    requires
        0 <= at <= table.len(),
        at + 4 <= e.table_len,
    ensures
        ({
            let rest = table.skip(at);
            let cut = rest.len() >= 4 && at + rest[1] >= e.table_len;
            let endless = rest.len() >= 4 && rest[1] <= rest.len() && forall|i: int|
                rest[1] <= i < rest.len() - 1 ==> !(#[trigger] rest[i] == 0 && rest[i + 1] == 0);
            &&& cut || endless ==> dmi_from(e, entry, table, at) == Ok::<
                Option<DmiInfoView>,
                UnsoundTable,
            >(None)
            &&& rest.len() < 4 || (!cut && rest[1] > rest.len()) || (!cut && !endless && rest[1]
                < 4) ==> dmi_from(e, entry, table, at) == Err::<
                Option<DmiInfoView>,
                UnsoundTable,
            >(UnsoundTable)
        }),
{
    let rest = table.skip(at);
    if rest.len() >= 4 {
        lemma_strings_end_holds(rest, rest[1] as int);
        lemma_strings_end_none(rest, rest[1] as int);
    }
}

proof fn lemma_strings_end_none(table: Seq<u8>, from: int)
    requires
        0 <= from,
    ensures
        strings_end(table, from) is None <==> forall|i: int|
            from <= i < table.len() - 1 ==> !(#[trigger] table[i] == 0 && table[i + 1] == 0),
    decreases table.len() - from,
{
    if from + 1 < table.len() {
        if table[from] == 0 && table[from + 1] == 0 {
            assert(!(forall|i: int|
                from <= i < table.len() - 1 ==> !(#[trigger] table[i] == 0 && table[i + 1] == 0)));
        } else {
            lemma_strings_end_none(table, from + 1);
            if strings_end(table, from) is None {
                assert forall|i: int| from <= i < table.len() - 1 implies !(#[trigger] table[i] == 0
                    && table[i + 1] == 0) by {
                    if i > from {
                        assert(from + 1 <= i);
                    }
                }
            }
        }
    }
}

/// Bytes that hold no entry point tell nothing, whatever the table.
pub proof fn no_entry_point_tells_nothing(entry: Seq<u8>, table: Seq<u8>)
    requires
        smbios_entry(entry) is None,
    ensures
        dmi_of(entry, table) == Ok::<Option<DmiInfoView>, UnsoundTable>(None),
{
}

} // verus!
