use adibi::device_info::{DeviceInfo, SystemSources};
use adibi::dmi::{dmi_info, next_structure, read_dmi, SmbiosEntry, TableStep, UnsoundTable};

/// An SMBIOS 3 entry point for a table of at most `len` bytes.
fn entry_v3(major: u8, minor: u8, len: u32) -> Vec<u8> {
    let mut bytes = b"_SM3_\0".to_vec();
    bytes.extend_from_slice(&[24, major, minor, 0, 1, 0]);
    bytes.extend_from_slice(&len.to_le_bytes());
    bytes.extend_from_slice(&0u64.to_le_bytes());
    let sum = bytes.iter().fold(0u8, |a, b| a.wrapping_add(*b));
    bytes[5] = 0u8.wrapping_sub(sum);
    bytes
}

/// An SMBIOS 2 entry point for a table of `len` bytes.
fn entry_v2(minor: u8, len: u16) -> Vec<u8> {
    let mut bytes = b"_SM_\0".to_vec();
    bytes.extend_from_slice(&[31, 2, minor, 0, 0, 0, 0, 0, 0, 0, 0]);
    bytes.extend_from_slice(b"_DMI_\0");
    bytes.extend_from_slice(&len.to_le_bytes());
    bytes.extend_from_slice(&[0, 0, 0, 0, 0, 0, 0]);
    let sum = bytes.iter().fold(0u8, |a, b| a.wrapping_add(*b));
    bytes[4] = 0u8.wrapping_sub(sum);
    bytes
}

fn structure(kind: u8, data: &[u8], strings: &[&str]) -> Vec<u8> {
    let mut bytes = vec![kind, 4 + data.len() as u8, 0, 0];
    bytes.extend_from_slice(data);
    for s in strings {
        bytes.extend_from_slice(s.as_bytes());
        bytes.push(0);
    }
    if strings.is_empty() {
        bytes.push(0);
    }
    bytes.push(0);
    bytes
}

/// A System structure with product and serial number.
fn system(product: &str, serial: &str) -> Vec<u8> {
    let mut data = vec![1, 2, 3, 4];
    data.extend_from_slice(&[0x11; 16]);
    data.extend_from_slice(&[6, 0, 0]);
    structure(1, &data, &["Maker", product, "v1", serial])
}

fn end() -> Vec<u8> {
    structure(127, &[], &[])
}

fn names(entry: &[u8], table: &[u8]) -> Result<Option<(Option<String>, Option<String>)>, UnsoundTable> {
    read_dmi(entry, table).map(|found| found.map(|info| (info.product, info.serial)))
}

fn found(product: &str, serial: &str) -> Result<Option<(Option<String>, Option<String>)>, UnsoundTable> {
    Ok(Some((Some(product.to_owned()), Some(serial.to_owned()))))
}

#[test]
fn system_structure_is_found() {
    let table = [system("Box 9", "SN-42"), end()].concat();
    let entry = entry_v3(3, 0, table.len() as u32);
    assert_eq!(names(&entry, &table), found("Box 9", "SN-42"));
}

#[test]
fn system_structure_is_found_behind_others() {
    let table = [
        structure(200, &[1, 2, 3], &["vendor"]),
        structure(11, &[1], &["oem"]),
        system("Later", "77"),
        system("Second", "78"),
        end(),
    ]
    .concat();
    let entry = entry_v3(3, 3, table.len() as u32);
    assert_eq!(names(&entry, &table), found("Later", "77"));
}

#[test]
fn old_tables_are_read_too() {
    let table = system("Old", "1");
    let entry = entry_v2(7, table.len() as u16);
    assert_eq!(names(&entry, &table), found("Old", "1"));
}

#[test]
fn table_may_be_shorter_than_its_limit() {
    let table = [structure(200, &[], &[]), end()].concat();
    let entry = entry_v3(3, 0, 100_000);
    assert_eq!(names(&entry, &table), Ok(None));
    let table = [system("P", "S"), end()].concat();
    assert_eq!(names(&entry, &table), found("P", "S"));
}

#[test]
fn empty_names_are_none() {
    let mut data = vec![1, 0, 1, 0];
    data.extend_from_slice(&[0; 19]);
    let table = [structure(1, &data, &["Maker"]), end()].concat();
    let entry = entry_v3(3, 0, table.len() as u32);
    assert_eq!(names(&entry, &table), Ok(Some((None, None))));
}

#[test]
fn malformed_system_is_skipped() {
    let mut data = vec![1, 9, 1, 1];
    data.extend_from_slice(&[0; 19]);
    let table = [structure(1, &data, &["Maker"]), system("Good", "2"), end()].concat();
    let entry = entry_v3(3, 0, table.len() as u32);
    assert_eq!(names(&entry, &table), found("Good", "2"));
}

#[test]
fn nothing_is_found_behind_the_end() {
    let table = [end(), system("Hidden", "3")].concat();
    let entry = entry_v3(3, 0, table.len() as u32);
    assert_eq!(names(&entry, &table), Ok(None));
    // Version 2 has no end marker.
    let entry = entry_v2(8, table.len() as u16);
    assert_eq!(names(&entry, &table), found("Hidden", "3"));
}

#[test]
fn no_entry_point_tells_nothing() {
    let table = [system("Box", "1"), end()].concat();
    assert_eq!(names(b"nothing here", &table), Ok(None));
    let mut entry = entry_v3(3, 0, table.len() as u32);
    entry[5] ^= 1;
    assert_eq!(names(&entry, &table), Ok(None));
}

#[test]
fn cut_off_structures_end_the_search() {
    let mut table = system("Box", "1");
    table.truncate(table.len() - 1);
    let entry = entry_v3(3, 0, 1000);
    assert_eq!(names(&entry, &table), Ok(None));
    assert_eq!(names(&entry, &[1, 255, 0, 0]), Err(UnsoundTable));
    assert_eq!(names(&entry_v3(3, 0, 4), &[1, 255, 0, 0]), Ok(None));
}

#[test]
fn unsound_tables_are_refused() {
    let entry = entry_v3(3, 0, 1000);
    // Nothing stands where the next header is expected.
    assert_eq!(names(&entry, &structure(200, &[], &[])), Err(UnsoundTable));
    assert_eq!(names(&entry, &[]), Err(UnsoundTable));
    // A length that does not cover the header.
    assert_eq!(names(&entry, &[200, 3, 0, 0, 0, 0]), Err(UnsoundTable));
    // A System structure whose fields would lie behind the table.
    assert_eq!(names(&entry, &structure(1, &[0], &[])), Err(UnsoundTable));
    // An event log whose descriptors have no length.
    let mut log = vec![0; 19];
    log[17] = 4;
    assert_eq!(names(&entry, &structure(15, &log, &[])), Err(UnsoundTable));
    // A memory array without its fields.
    assert_eq!(names(&entry, &structure(16, &[0; 10], &[])), Err(UnsoundTable));
}

#[test]
fn overflowing_counts_are_stepped_over() {
    let entry = entry_v3(3, 0, 1000);
    // A group without a name, a chassis with too many elements, and one whose manufacturer is
    // missing too.
    let group = structure(14, &[], &[]);
    let mut chassis = vec![0; 17];
    chassis[15] = 16;
    chassis[16] = 16;
    let mut nameless = chassis.clone();
    nameless[0] = 9;
    for odd in [group, structure(3, &chassis, &[]), structure(3, &nameless, &[])] {
        let table = [odd.clone(), system("Behind", "5"), end()].concat();
        assert_eq!(names(&entry, &table), found("Behind", "5"));
        let table = [system("Before", "4"), odd.clone(), end()].concat();
        assert_eq!(names(&entry, &table), found("Before", "4"));
        assert_eq!(names(&entry, &[odd, end()].concat()), Ok(None));
    }
    assert_eq!(names(&entry, &[14, 4, 0, 0, 0, 0, 127, 4, 0, 0, 0, 0]), Ok(None));
    // The most that a count can be.
    chassis[15] = 15;
    chassis[16] = 17;
    let table = [structure(3, &chassis, &[]), system("Behind", "5"), end()].concat();
    assert_eq!(names(&entry, &table), found("Behind", "5"));
}

#[test]
fn sound_structures_of_every_kind_are_decoded() {
    for minor in [0u8, 1, 2, 4, 6, 8] {
        let mut table = vec![];
        for kind in 0..=45u8 {
            if kind == 1 || (kind == 7 && minor == 0) {
                continue;
            }
            table.extend_from_slice(&structure(kind, &[0; 60], &[]));
        }
        table.extend_from_slice(&system("End", "of it"));
        let entry = entry_v2(minor, table.len() as u16);
        assert_eq!(names(&entry, &table), found("End", "of it"), "2.{minor}");
    }
    let mut table = vec![];
    for kind in 0..=45u8 {
        if kind != 1 {
            table.extend_from_slice(&structure(kind, &[0; 60], &[]));
        }
    }
    table.extend_from_slice(&system("End", "of it"));
    for minor in [0u8, 1, 2, 3] {
        let entry = entry_v3(3, minor, table.len() as u32);
        assert_eq!(names(&entry, &table), found("End", "of it"), "3.{minor}");
    }
}

#[test]
fn walk_goes_from_structure_to_structure() {
    let table = [structure(200, &[7], &["a", "b"]), end()].concat();
    let e = SmbiosEntry {
        major: 3,
        minor: 0,
        table_len: table.len() as u32,
    };
    match next_structure(&e, &table, 0) {
        TableStep::Whole { next, last } => assert_eq!((next, last), (10, false)),
        _ => panic!("no structure"),
    }
    match next_structure(&e, &table, 10) {
        TableStep::Whole { next, last } => assert_eq!((next, last), (16, true)),
        _ => panic!("no structure"),
    }
    assert!(matches!(next_structure(&e, &table, 16), TableStep::End));
    assert!(matches!(next_structure(&e, &table[..12], 10), TableStep::Unsound));
    assert!(matches!(next_structure(&e, &table[..15], 10), TableStep::Broken));
}

#[test]
fn names_of_a_system_may_be_missing() {
    let info = dmi_info("", "S");
    assert_eq!((info.product, info.serial), (None, Some("S".to_owned())));
}

#[test]
fn identity_comes_from_dmi() {
    let table = [system("Box 9", "SN-42"), end()].concat();
    let sources = SystemSources {
        smbios_entry_point: Some(entry_v3(3, 0, table.len() as u32)),
        dmi_table: Some(table),
        cpuinfo: Some("Serial: x\nModel: y\n".to_owned()),
        device_tree_model: None,
        os_release: None,
        machine_id: None,
        hostname: None,
    };
    let info = DeviceInfo::from_system(&sources);
    assert_eq!((info.serial.as_str(), info.model.as_str()), ("SN-42", "Box 9"));

    let unsound = SystemSources {
        dmi_table: Some(vec![]),
        ..sources
    };
    let info = DeviceInfo::from_system(&unsound);
    assert_eq!((info.serial.as_str(), info.model.as_str()), ("x", "y"));
}
