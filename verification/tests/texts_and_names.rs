use adibi::device_info::{
    non_empty, read_cpuinfo_field, read_device_tree_model, read_hostname, read_machine_id,
    read_os_pretty_name, DeviceInfo, SystemSources,
};
use adibi::dmi::DmiInfo;
use adibi::forward::{parse_destination, Destination, DestinationError};
use adibi::stream::{parse_service, shell_arguments, ServiceRequest};
use adibi::text::{chars_of, lossy, strip_prefix, CharClass};

fn owned(s: &str) -> Option<String> {
    Some(s.to_owned())
}

fn silent() -> SystemSources {
    SystemSources {
        smbios_entry_point: None,
        dmi_table: None,
        cpuinfo: None,
        device_tree_model: None,
        os_release: None,
        machine_id: None,
        hostname: None,
    }
}

#[test]
fn white_space_is_what_std_takes_for_it() {
    for code in 0..=0x10_ffffu32 {
        if let Some(c) = char::from_u32(code) {
            assert_eq!(CharClass::WhiteSpace.contains(c), c.is_whitespace(), "{code:x}");
        }
    }
    assert!(CharClass::Only('"').contains('"'));
    assert!(!CharClass::Only('"').contains(' '));
}

#[test]
fn bytes_become_text_as_in_std() {
    for bytes in [
        &b"plain"[..],
        b"",
        b"\xc3\xa9",
        b"a\xffb",
        b"\xff\xfe",
        b"\xf0\x9f\x92",
        b"\xf0\x9f\x92\xa9!",
        b"x\xe2\x82",
        b"\xe2\x28\xa1",
        b"\xed\xa0\x80z",
        b"\xc0\xafz\xf8\x88\x80\x80\x80",
    ] {
        assert_eq!(lossy(bytes), String::from_utf8_lossy(bytes), "{bytes:?}");
    }
}

#[test]
fn prefixes_are_stripped_as_in_std() {
    for (text, prefix) in [
        ("shell:ls", "shell:"),
        ("shell:", "shell:"),
        ("shell", "shell:"),
        ("", "x"),
        ("x", ""),
        ("\u{e9}t\u{e9}", "\u{e9}"),
        ("\u{e9}", "\u{e8}"),
    ] {
        assert_eq!(strip_prefix(text, prefix), text.strip_prefix(prefix));
    }
    assert_eq!(chars_of("a\u{1f600}"), vec!['a', '\u{1f600}']);
}

#[test]
fn empty_texts_are_none() {
    assert_eq!(non_empty(""), None);
    assert_eq!(non_empty(" "), owned(" "));
}

#[test]
fn cpuinfo_fields_are_found() {
    let contents = "processor\t: 0\nModel\t\t: Raspberry Pi 4 \nSerial : 1000abcd\nModel: other\n";
    assert_eq!(read_cpuinfo_field(contents, "Serial"), owned("1000abcd"));
    assert_eq!(read_cpuinfo_field(contents, "Model"), owned("Raspberry Pi 4"));
    assert_eq!(read_cpuinfo_field(contents, "Revision"), None);
    assert_eq!(read_cpuinfo_field("Serial: a:b\r\n", "Serial"), owned("a:b"));
    assert_eq!(read_cpuinfo_field("Serial:", "Serial"), None);
    assert_eq!(read_cpuinfo_field("", "Serial"), None);
}

#[test]
fn lines_without_separator_are_passed_over() {
    assert_eq!(
        read_cpuinfo_field("processor\t: 0\n\nSerial\t\t: 10000000abcd\n", "Serial"),
        owned("10000000abcd")
    );
    assert_eq!(
        read_os_pretty_name("# distro\nID=debian\nPRETTY_NAME=\"Debian 12\"\n"),
        owned("Debian 12")
    );
    assert_eq!(read_cpuinfo_field("Serial\nSerial: 2", "Serial"), owned("2"));
    assert_eq!(read_cpuinfo_field("\n\nSerial", "Serial"), None);
}

#[test]
fn pretty_name_is_unquoted() {
    let contents = "NAME=\"Debian\"\nPRETTY_NAME=\"Debian 12 \"\nID=debian\n";
    assert_eq!(read_os_pretty_name(contents), owned("Debian 12 "));
    assert_eq!(read_os_pretty_name("PRETTY_NAME=Plain\r\n"), owned("Plain"));
    assert_eq!(read_os_pretty_name("PRETTY_NAME=Plain\r"), owned("Plain\r"));
    assert_eq!(read_os_pretty_name(" PRETTY_NAME=x\n"), None);
    assert_eq!(read_os_pretty_name("PRETTY_NAME=\"\"\n"), None);
    assert_eq!(read_os_pretty_name("PRETTY_NAME=a=b"), owned("a=b"));
}

#[test]
fn single_words_are_trimmed() {
    assert_eq!(read_device_tree_model("  Board v2 \0\0"), owned("Board v2"));
    assert_eq!(read_device_tree_model("\0"), None);
    assert_eq!(read_machine_id("0123abcd\n"), owned("0123abcd"));
    assert_eq!(read_hostname("\u{2003}box\u{85}\n"), owned("box"));
    assert_eq!(read_hostname("\n"), None);
}

#[test]
fn identity_falls_back_to_the_default() {
    let info = DeviceInfo::from_system(&silent());
    assert_eq!(info.serial, "adibi");
    assert_eq!(info.name, "adibi");
    assert_eq!(info.model, "adibi");
    assert_eq!(info.device, "adibi");
}

#[test]
fn identity_prefers_dmi_then_cpuinfo() {
    let sources = SystemSources {
        cpuinfo: owned("Serial: cpu-serial\nModel: cpu-model\n"),
        device_tree_model: owned("tree-model\0"),
        os_release: owned("PRETTY_NAME=\"Some OS\"\n"),
        machine_id: owned("machine\n"),
        hostname: owned("host\n"),
        ..silent()
    };
    let info = DeviceInfo::from_sources(
        &sources,
        Some(DmiInfo {
            product: owned("dmi-product"),
            serial: None,
        }),
    );
    assert_eq!(info.serial, "cpu-serial");
    assert_eq!(info.name, "Some OS");
    assert_eq!(info.model, "dmi-product");
    assert_eq!(info.device, "host");

    let sources = SystemSources {
        cpuinfo: None,
        ..sources
    };
    let info = DeviceInfo::from_system(&sources);
    assert_eq!(info.serial, "machine");
    assert_eq!(info.model, "tree-model");
}

#[test]
fn shells_run_a_command_or_none() {
    assert_eq!(shell_arguments(None), vec!["/bin/sh"]);
    assert_eq!(shell_arguments(Some("ls -l")), vec!["/bin/sh", "-c", "ls -l"]);
    assert_eq!(shell_arguments(Some("")), vec!["/bin/sh", "-c", ""]);
}

#[test]
fn services_are_known_by_name() {
    assert!(matches!(parse_service("sync:"), Ok(ServiceRequest::Sync)));
    assert!(matches!(
        parse_service("shell:"),
        Ok(ServiceRequest::Shell { command: None })
    ));
    assert!(matches!(
        parse_service("shell:ls -l"),
        Ok(ServiceRequest::Shell { command: Some(c) }) if c == "ls -l"
    ));
    assert!(matches!(parse_service("reboot:"), Ok(ServiceRequest::Reboot)));
    assert!(matches!(
        parse_service("tcp:5555"),
        Ok(ServiceRequest::Forward(Destination::Tcp(5555)))
    ));
    for name in ["", "sync", "sync:x", "shell", "reboot:now", "jdwp:1", "Sync:"] {
        assert!(matches!(
            parse_service(name),
            Err(DestinationError::Unsupported)
        ));
    }
}

#[test]
fn destinations_are_read() {
    assert!(matches!(parse_destination("tcp:0"), Ok(Destination::Tcp(0))));
    assert!(matches!(parse_destination("tcp:+80"), Ok(Destination::Tcp(80))));
    assert!(matches!(
        parse_destination("tcp:0065535"),
        Ok(Destination::Tcp(65535))
    ));
    assert!(matches!(
        parse_destination("localabstract:name"),
        Ok(Destination::Abstract(n)) if n == "name"
    ));
    assert!(matches!(
        parse_destination("localfilesystem:/run/s"),
        Ok(Destination::Path(p)) if p == "/run/s"
    ));
    assert!(matches!(
        parse_destination("udp:1"),
        Err(DestinationError::Unsupported)
    ));
}

#[test]
fn ports_are_read_as_in_std() {
    for text in ["", "+", "-1", "-0", "65536", "80 ", " 80", "0x50", "++1", "12", "+65535"] {
        let name = format!("tcp:{text}");
        let ours = match parse_destination(&name) {
            Ok(Destination::Tcp(port)) => Some(port),
            Err(DestinationError::InvalidPort) => None,
            other => panic!("{other:?}"),
        };
        assert_eq!(ours, text.parse::<u16>().ok(), "{text}");
    }
}
