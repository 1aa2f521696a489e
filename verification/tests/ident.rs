//! Device identity text form: formatting, parsing, and their round trip.

use vmouse::ident::UsbDevice;

#[test]
fn to_string_gives_four_hex_digits_each() {
    let d = UsbDevice { vid: 0x046d, pid: 0xc626 };
    assert_eq!(d.to_string(), "046d:c626");
    let z = UsbDevice { vid: 0, pid: 0 };
    assert_eq!(z.to_string(), "0000:0000");
    let m = UsbDevice { vid: 0xffff, pid: 0xffff };
    assert_eq!(m.to_string(), "ffff:ffff");
}

#[test]
fn round_trip_through_text() {
    for d in [
        UsbDevice { vid: 0x046d, pid: 0xc626 },
        UsbDevice { vid: 0, pid: 0 },
        UsbDevice { vid: 0xffff, pid: 0xffff },
        UsbDevice { vid: 0x0001, pid: 0xabcd },
    ] {
        assert_eq!(UsbDevice::from_str(&d.to_string()), Ok(d));
    }
}

#[test]
fn parse_accepts_short_and_uppercase_hex() {
    assert_eq!(
        UsbDevice::from_str("46d:C626"),
        Ok(UsbDevice { vid: 0x046d, pid: 0xc626 })
    );
    assert_eq!(UsbDevice::from_str("0:0"), Ok(UsbDevice { vid: 0, pid: 0 }));
}

#[test]
fn parse_ignores_anything_after_a_second_colon() {
    assert_eq!(
        UsbDevice::from_str("046d:c626:anything"),
        Ok(UsbDevice { vid: 0x046d, pid: 0xc626 })
    );
}

#[test]
fn malformed_strings_fail_to_parse() {
    assert_eq!(UsbDevice::from_str(""), Err(()));
    assert_eq!(UsbDevice::from_str("046d"), Err(()));
    assert_eq!(UsbDevice::from_str(":"), Err(()));
    assert_eq!(UsbDevice::from_str("046d:"), Err(()));
    assert_eq!(UsbDevice::from_str(":c626"), Err(()));
    assert_eq!(UsbDevice::from_str("xyz:0001"), Err(()));
    assert_eq!(UsbDevice::from_str("0001:xyz"), Err(()));
    assert_eq!(UsbDevice::from_str("10000:0001"), Err(()));
    assert_eq!(UsbDevice::from_str("0001:10000"), Err(()));
    assert_eq!(UsbDevice::from_str("+1:2"), Err(()));
}
