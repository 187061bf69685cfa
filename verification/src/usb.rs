//! USB identity of the ADB gadget, and the `FunctionFS` descriptor and string blobs.

use crate::bytes::{push_bytes, push_u16, push_u32, u16_bytes, u32_bytes};
use vstd::prelude::*;

verus! {

broadcast use crate::bytes::u32_bytes_len;

/// USB manufacturer string for the ADB gadget.
pub const ADB_MANUFACTURER_EN: &'static str = "Android";

/// USB product string for the ADB gadget.
pub const ADB_PRODUCT_EN: &'static str = "Android Debug Bridge";

/// USB interface class for ADB (vendor-specific).
pub const USB_CLASS_ADB: u8 = 0xff;

/// USB interface subclass for ADB.
pub const USB_SUBCLASS_ADB: u8 = 0x42;

/// USB interface protocol for ADB.
pub const USB_PROTOCOL_ADB: u8 = 0x01;

/// Google's USB vendor ID.
pub const USB_VENDOR_ID_GOOGLE: u16 = 0x18d1;

/// USB product ID for ADB.
pub const USB_PRODUCT_ID_ADB: u16 = 0x4ee7;

/// USB language ID for English (US).
pub const USB_LANG_EN_US: u16 = 0x409;

/// Magic number of a `FunctionFS` descriptor blob.
pub const FUNCTIONFS_DESCRIPTORS_MAGIC_V2: u32 = 3;

/// Magic number of a `FunctionFS` string blob.
pub const FUNCTIONFS_STRINGS_MAGIC: u32 = 2;

/// Descriptor flags: descriptors for full speed and for high speed follow.
pub const FUNCTIONFS_HAS_FS_AND_HS_DESC: u32 = 3;

/// USB descriptor type of an interface.
pub const USB_DT_INTERFACE: u8 = 4;

/// USB descriptor type of an endpoint.
pub const USB_DT_ENDPOINT: u8 = 5;

/// Address of the endpoint from the host.
pub const EP_ADDR_OUT: u8 = 0x01;

/// Address of the endpoint to the host.
pub const EP_ADDR_IN: u8 = 0x82;

/// Bulk max packet size at full speed.
pub const FS_MAX_PACKET_SIZE: u16 = 64;

/// Bulk max packet size at high speed.
pub const HS_MAX_PACKET_SIZE: u16 = 512;

/// How many descriptors there are for a speed: an interface and two endpoints.
pub const DESCS_COUNT: u32 = 3;

/// The descriptor of the ADB interface: it has two endpoints and is named by the first string.
pub open spec fn interface_descriptor() -> Seq<u8> {
    seq![
        9u8,
        USB_DT_INTERFACE,
        0,
        0,
        2,
        USB_CLASS_ADB,
        USB_SUBCLASS_ADB,
        USB_PROTOCOL_ADB,
        1,
    ]
}

/// The descriptor of a bulk endpoint.
pub open spec fn endpoint_descriptor(address: u8, max_packet_size: u16) -> Seq<u8> {
    seq![7u8, USB_DT_ENDPOINT, address, 2] + u16_bytes(max_packet_size) + seq![0u8]
}

/// The descriptors for one speed.
pub open spec fn speed_descriptors(max_packet_size: u16) -> Seq<u8> {
    interface_descriptor() + endpoint_descriptor(EP_ADDR_OUT, max_packet_size)
        + endpoint_descriptor(EP_ADDR_IN, max_packet_size)
}

/// How many bytes the descriptor blob takes.
pub const DESCRIPTORS_SIZE: u32 = 66;

/// The descriptor blob: a header, the number of descriptors for each speed, and the descriptors.
pub open spec fn descriptor_blob() -> Seq<u8> {
    u32_bytes(FUNCTIONFS_DESCRIPTORS_MAGIC_V2) + u32_bytes(DESCRIPTORS_SIZE) + u32_bytes(
        FUNCTIONFS_HAS_FS_AND_HS_DESC,
    ) + u32_bytes(DESCS_COUNT) + u32_bytes(DESCS_COUNT) + speed_descriptors(FS_MAX_PACKET_SIZE)
        + speed_descriptors(HS_MAX_PACKET_SIZE)
}

/// `ADB Interface`, with a NUL behind it.
pub open spec fn interface_string() -> Seq<u8> {
    seq![
        0x41u8,
        0x44,
        0x42,
        0x20,
        0x49,
        0x6e,
        0x74,
        0x65,
        0x72,
        0x66,
        0x61,
        0x63,
        0x65,
        0x00,
    ]
}

/// How many bytes the string blob takes.
pub const STRINGS_SIZE: u32 = 32;

/// The string blob: a header for one string in one language, the language, and the string.
pub open spec fn string_blob() -> Seq<u8> {
    u32_bytes(FUNCTIONFS_STRINGS_MAGIC) + u32_bytes(STRINGS_SIZE) + u32_bytes(1) + u32_bytes(1)
        + u16_bytes(USB_LANG_EN_US) + interface_string()
}

/// The length that each blob states is its length.
pub proof fn blobs_state_their_length()
    ensures
        descriptor_blob().len() == DESCRIPTORS_SIZE,
        string_blob().len() == STRINGS_SIZE,
{
}

/// Appends the descriptor of the ADB interface.
pub fn adb_interface(out: &mut Vec<u8>)
    ensures
        final(out)@ == old(out)@ + interface_descriptor(),
{
    let bytes: [u8; 9] = [
        9,
        USB_DT_INTERFACE,
        0,
        0,
        2,
        USB_CLASS_ADB,
        USB_SUBCLASS_ADB,
        USB_PROTOCOL_ADB,
        1,
    ];
    assert(bytes@ =~= interface_descriptor());
    push_bytes(out, bytes.as_slice());
}

/// Appends the descriptor of a bulk endpoint.
pub fn bulk_endpoint(out: &mut Vec<u8>, address: u8, max_packet_size: u16)
    ensures
        final(out)@ == old(out)@ + endpoint_descriptor(address, max_packet_size),
{
    let ghost before = out@;
    let head: [u8; 4] = [7, USB_DT_ENDPOINT, address, 2];
    assert(head@ =~= seq![7u8, USB_DT_ENDPOINT, address, 2]);
    push_bytes(out, head.as_slice());
    push_u16(out, max_packet_size);
    out.push(0);
    assert(out@ =~= before + endpoint_descriptor(address, max_packet_size));
}

/// Appends the descriptors for one speed.
pub fn fs_hs_descs(out: &mut Vec<u8>, max_packet_size: u16)
    ensures
        final(out)@ == old(out)@ + speed_descriptors(max_packet_size),
{
    let ghost before = out@;
    adb_interface(out);
    bulk_endpoint(out, EP_ADDR_OUT, max_packet_size);
    bulk_endpoint(out, EP_ADDR_IN, max_packet_size);
    assert(out@ =~= before + speed_descriptors(max_packet_size));
}

/// The contents of `descriptors.bin`.
pub fn descriptors() -> (out: Vec<u8>)
    ensures
        out@ == descriptor_blob(),
{
    let mut out: Vec<u8> = Vec::new();
    push_u32(&mut out, FUNCTIONFS_DESCRIPTORS_MAGIC_V2);
    push_u32(&mut out, DESCRIPTORS_SIZE);
    push_u32(&mut out, FUNCTIONFS_HAS_FS_AND_HS_DESC);
    push_u32(&mut out, DESCS_COUNT);
    push_u32(&mut out, DESCS_COUNT);
    fs_hs_descs(&mut out, FS_MAX_PACKET_SIZE);
    fs_hs_descs(&mut out, HS_MAX_PACKET_SIZE);
    assert(out@ =~= descriptor_blob());
    out
}

/// The contents of `strings.bin`.
pub fn strings() -> (out: Vec<u8>)
    ensures
        out@ == string_blob(),
{
    let mut out: Vec<u8> = Vec::new();
    push_u32(&mut out, FUNCTIONFS_STRINGS_MAGIC);
    push_u32(&mut out, STRINGS_SIZE);
    push_u32(&mut out, 1);
    push_u32(&mut out, 1);
    push_u16(&mut out, USB_LANG_EN_US);
    let name: [u8; 14] = [
        0x41,
        0x44,
        0x42,
        0x20,
        0x49,
        0x6e,
        0x74,
        0x65,
        0x72,
        0x66,
        0x61,
        0x63,
        0x65,
        0x00,
    ];
    assert(name@ =~= interface_string());
    push_bytes(&mut out, name.as_slice());
    assert(out@ =~= string_blob());
    out
}

/// Each descriptor says first how long it is and what it is. An endpoint descriptor tells the
/// address, that the endpoint is a bulk endpoint, and the size of a packet, little-endian.
pub proof fn descriptors_describe_themselves(address: u8, max_packet_size: u16)
    ensures
        ({
            let d = endpoint_descriptor(address, max_packet_size);
            &&& d.len() == 7 && d[0] == 7 && d[1] == 5
            &&& d[2] == address
            &&& d[3] == 2
            &&& d[4] + 256 * d[5] == max_packet_size
            &&& d[6] == 0
        }),
        ({
            let d = interface_descriptor();
            &&& d.len() == 9 && d[0] == 9 && d[1] == 4
            &&& d[4] == 2
            &&& d[5] == 0xff && d[6] == 0x42 && d[7] == 0x01
        }),
{
}

/// For each speed there are an interface, an endpoint from the host and an endpoint to the host,
/// in this order.
pub proof fn speeds_have_two_endpoints(max_packet_size: u16)
    ensures
        ({
            let d = speed_descriptors(max_packet_size);
            &&& d.len() == 23
            &&& d.subrange(0, 9) == interface_descriptor()
            &&& d.subrange(9, 16) == endpoint_descriptor(0x01, max_packet_size)
            &&& d.subrange(16, 23) == endpoint_descriptor(0x82, max_packet_size)
        }),
{
    let d = speed_descriptors(max_packet_size);
    assert(d.subrange(0, 9) =~= interface_descriptor());
    assert(d.subrange(9, 16) =~= endpoint_descriptor(0x01, max_packet_size));
    assert(d.subrange(16, 23) =~= endpoint_descriptor(0x82, max_packet_size));
}

} // verus!
