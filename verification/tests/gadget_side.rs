use adibi::ffs::{
    decode_event, is_connection_end, receive_usb_fds, wait_for_enable, EnableWait, EventError,
    ListenFdsError, UsbFds, UsbFunctionFsEventType, UsbFunctionFsEventTypeError,
};
use adibi::gadget::{bind_udc, format_hex, setup_gadget, unbind_udc, GadgetStep};
use adibi::usb::{descriptors, strings};
use std::collections::BTreeMap;

const EVENTS: [(u8, UsbFunctionFsEventType, &str); 7] = [
    (0, UsbFunctionFsEventType::Bind, "Bind"),
    (1, UsbFunctionFsEventType::Unbind, "Unbind"),
    (2, UsbFunctionFsEventType::Enable, "Enable"),
    (3, UsbFunctionFsEventType::Disable, "Disable"),
    (4, UsbFunctionFsEventType::Setup, "Setup"),
    (5, UsbFunctionFsEventType::Suspend, "Suspend"),
    (6, UsbFunctionFsEventType::Resume, "Resume"),
];

fn event(number: u8) -> [u8; 12] {
    let mut bytes = [0xaa; 12];
    bytes[8] = number;
    bytes
}

#[test]
fn events_are_decoded() {
    for (number, kind, name) in EVENTS {
        assert_eq!(decode_event(&event(number)), Ok(kind));
        assert_eq!(UsbFunctionFsEventType::try_from(number), Ok(kind));
        assert_eq!(kind.name(), name);
        assert_eq!(kind.name(), format!("{kind:?}"));
    }
    assert_eq!(
        decode_event(&event(7)),
        Err(EventError::UnknownType(UsbFunctionFsEventTypeError(7)))
    );
    assert_eq!(decode_event(&event(2)[..11]), Err(EventError::Short));
}

#[test]
fn some_events_end_the_connection() {
    for (_, kind, _) in EVENTS {
        let ends = kind == UsbFunctionFsEventType::Disable || kind == UsbFunctionFsEventType::Unbind;
        assert_eq!(is_connection_end(kind), ends);
    }
}

#[test]
fn only_enable_ends_the_wait() {
    for (_, kind, _) in EVENTS {
        let expected = if kind == UsbFunctionFsEventType::Enable {
            EnableWait::Enabled
        } else {
            EnableWait::Again
        };
        assert_eq!(wait_for_enable(Ok(kind)), expected);
    }
    assert_eq!(
        wait_for_enable(Err(EventError::Short)),
        EnableWait::Failed(EventError::Short)
    );
}

#[test]
fn three_descriptors_are_taken_over() {
    let fds = UsbFds {
        ep0: 3,
        bulk_out: 4,
        bulk_in: 5,
    };
    assert_eq!(receive_usb_fds("3"), Ok(fds));
    assert_eq!(receive_usb_fds("+03"), Ok(fds));
    assert_eq!(receive_usb_fds("2"), Err(ListenFdsError::WrongCount(2)));
    assert_eq!(receive_usb_fds("-3"), Err(ListenFdsError::WrongCount(-3)));
}

#[test]
fn counts_are_read_as_in_std() {
    for text in [
        "", "3 ", "three", "+", "-", "--3", "2147483647", "2147483648", "-2147483648",
        "-2147483649", "99999999999999999999",
    ] {
        let ours = match receive_usb_fds(text) {
            Ok(_) => Some(3),
            Err(ListenFdsError::WrongCount(n)) => Some(n),
            Err(ListenFdsError::NotANumber) => None,
        };
        assert_eq!(ours, text.parse::<i32>().ok(), "{text}");
    }
}

#[test]
fn numbers_are_formatted_as_in_std() {
    for v in (0..=u16::MAX).step_by(37) {
        assert_eq!(format_hex(v, 4), format!("{v:#06x}"));
        assert_eq!(format_hex(v, 0), format!("{v:#x}"));
    }
    assert_eq!(format_hex(0, 0), "0x0");
    assert_eq!(format_hex(u16::MAX, 4), "0xffff");
}

#[test]
fn gadget_is_set_up_step_by_step() {
    let root = "/sys/kernel/config/usb_gadget/muadib";
    let steps: Vec<String> = setup_gadget("SER")
        .into_iter()
        .map(|step| match step {
            GadgetStep::CreateDir { path } => format!("mkdir {path}"),
            GadgetStep::Write { path, contents } => {
                format!("write {path} {}", String::from_utf8(contents).unwrap())
            }
            GadgetStep::Link { target, link } => format!("link {target} {link}"),
        })
        .collect();
    assert_eq!(
        steps,
        vec![
            "mkdir /run/muadib/ffs".to_owned(),
            format!("mkdir {root}"),
            format!("write {root}/idVendor 0x18d1"),
            format!("write {root}/idProduct 0x4ee7"),
            format!("mkdir {root}/strings/0x409"),
            format!("write {root}/strings/0x409/manufacturer Android"),
            format!("write {root}/strings/0x409/product Android Debug Bridge"),
            format!("write {root}/strings/0x409/serialnumber SER"),
            format!("mkdir {root}/configs/c.1"),
            format!("mkdir {root}/configs/c.1/strings/0x409"),
            format!("write {root}/configs/c.1/strings/0x409/configuration adb"),
            format!("mkdir {root}/functions/ffs.adb"),
            format!("link {root}/functions/ffs.adb {root}/configs/c.1/ffs.adb"),
        ]
    );
}

/// Takes the steps on a tree of paths and what stands there.
fn take(tree: &mut BTreeMap<String, String>, steps: Vec<GadgetStep>) {
    for step in steps {
        match step {
            GadgetStep::CreateDir { path } => {
                for (i, _) in path.match_indices('/').skip(1) {
                    tree.entry(path[..i].to_owned()).or_insert("dir".to_owned());
                }
                tree.entry(path).or_insert("dir".to_owned());
            }
            GadgetStep::Write { path, contents } => {
                tree.insert(path, String::from_utf8(contents).unwrap());
            }
            GadgetStep::Link { target, link } => {
                tree.entry(link).or_insert(format!("-> {target}"));
            }
        }
    }
}

#[test]
fn second_setup_leaves_the_gadget_as_it_is() {
    let root = "/sys/kernel/config/usb_gadget/muadib";
    let mut tree = BTreeMap::new();
    tree.insert("/etc".to_owned(), "dir".to_owned());
    tree.insert(format!("{root}/idVendor"), "0x0000".to_owned());
    take(&mut tree, setup_gadget("SER"));
    for (path, contents) in [
        ("idVendor", "0x18d1"),
        ("idProduct", "0x4ee7"),
        ("strings/0x409/manufacturer", "Android"),
        ("strings/0x409/product", "Android Debug Bridge"),
        ("strings/0x409/serialnumber", "SER"),
        ("configs/c.1/strings/0x409/configuration", "adb"),
        ("configs/c.1", "dir"),
        ("functions", "dir"),
    ] {
        assert_eq!(tree[&format!("{root}/{path}")], contents);
    }
    assert_eq!(
        tree[&format!("{root}/configs/c.1/ffs.adb")],
        format!("-> {root}/functions/ffs.adb")
    );
    assert_eq!((tree["/etc"].as_str(), tree["/run/muadib/ffs"].as_str()), ("dir", "dir"));

    let once = tree.clone();
    take(&mut tree, setup_gadget("SER"));
    assert_eq!(tree, once);
}

#[test]
fn controller_is_bound_and_unbound() {
    let udc = "/sys/kernel/config/usb_gadget/muadib/UDC";
    assert!(matches!(
        bind_udc(b"dummy_udc.0"),
        GadgetStep::Write { path, contents } if path == udc && contents == b"dummy_udc.0"
    ));
    assert!(matches!(
        unbind_udc(),
        GadgetStep::Write { path, contents } if path == udc && contents.is_empty()
    ));
}

#[test]
fn blobs_are_spelled_out() {
    let speed = |size: [u8; 2]| {
        vec![
            9, 4, 0, 0, 2, 0xff, 0x42, 0x01, 1, 7, 5, 0x01, 2, size[0], size[1], 0, 7, 5, 0x82, 2,
            size[0], size[1], 0,
        ]
    };
    let mut expected = vec![
        3, 0, 0, 0, 66, 0, 0, 0, 3, 0, 0, 0, 3, 0, 0, 0, 3, 0, 0, 0,
    ];
    expected.extend_from_slice(&speed([64, 0]));
    expected.extend_from_slice(&speed([0, 2]));
    assert_eq!(descriptors(), expected);
    assert_eq!(descriptors().len(), 66);

    let mut expected = vec![2, 0, 0, 0, 32, 0, 0, 0, 1, 0, 0, 0, 1, 0, 0, 0, 0x09, 0x04];
    expected.extend_from_slice(b"ADB Interface\0");
    assert_eq!(strings(), expected);
    assert_eq!(strings().len(), 32);
}
