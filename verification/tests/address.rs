use dbus_pure::address::socket_paths_of;
use dbus_pure::conn::{authentication_request, begin_request, server_guid_in, socket_paths_to_try};
use dbus_pure::{BusPath, ConnectError, Endianness, SaslAuthType};

fn paths(address: &str) -> Vec<String> {
    socket_paths_of(address.as_bytes())
        .into_iter()
        .map(|path| String::from_utf8(path).unwrap())
        .collect()
}

#[test]
fn the_path_of_a_unix_address() {
    assert_eq!(paths("unix:path=/run/user/1000/bus"), ["/run/user/1000/bus"]);
    assert_eq!(paths("unix:guid=abc,path=/a,path=/b"), ["/a"]);
    assert_eq!(paths("unix:abstract=/x"), Vec::<String>::new());
    assert_eq!(paths(""), Vec::<String>::new());
    assert_eq!(paths("unix:"), Vec::<String>::new());
}

#[test]
fn several_addresses_are_tried_in_order() {
    assert_eq!(
        paths("unix:path=/a;tcp:host=h,family=ipv4;unix:path=/b;;unix:path=/c"),
        ["/a", "/b", "/c"]
    );
}

#[test]
fn keys_and_values_are_percent_decoded() {
    assert_eq!(paths("unix:path=/with%20space%2Fand%25"), ["/with space/and%"]);
    assert_eq!(paths("unix:p%61th=/a"), ["/a"]);
    assert_eq!(paths("unix:path=/a%zz%4"), ["/a%zz%4"]);
    assert_eq!(paths("unix:path=%2fa%2Fb"), ["/a/b"]);
    assert_eq!(
        socket_paths_of(b"unix:path=/%ff%00"),
        vec![vec![b'/', 0xff, 0x00]]
    );
}

#[test]
fn the_first_path_key_decides_even_without_a_value() {
    assert_eq!(paths("unix:path,path=/a"), Vec::<String>::new());
    assert_eq!(paths("unix:path=,path=/a"), [""]);
    assert_eq!(paths("unix:path=a=b"), ["a=b"]);
}

#[test]
fn other_transports_are_skipped() {
    assert_eq!(paths("tcp:path=/a"), Vec::<String>::new());
    assert_eq!(paths("unixpath=/a"), Vec::<String>::new());
    assert_eq!(paths("UNIX:path=/a"), Vec::<String>::new());
}

#[test]
fn the_paths_to_try_for_each_bus() {
    assert_eq!(
        socket_paths_to_try(BusPath::Session, None, Some(b"unix:path=/s")),
        Err(ConnectError::MissingSessionBusEnvVar)
    );
    assert_eq!(
        socket_paths_to_try(BusPath::Session, Some(b"unix:path=/a;unix:path=/b"), None),
        Ok(vec![b"/a".to_vec(), b"/b".to_vec()])
    );
    assert_eq!(
        socket_paths_to_try(BusPath::System, Some(b"unix:path=/a"), None),
        Ok(vec![b"/var/run/dbus/system_bus_socket".to_vec()])
    );
    assert_eq!(
        socket_paths_to_try(BusPath::System, None, Some(b"unix:path=/s")),
        Ok(vec![b"/s".to_vec()])
    );
    assert_eq!(
        socket_paths_to_try(BusPath::UnixSocketFile(b"/x y"), None, None),
        Ok(vec![b"/x y".to_vec()])
    );
}

#[test]
fn the_identity_of_a_uid_is_the_hex_of_its_decimal_digits() {
    assert_eq!(
        authentication_request(SaslAuthType::Uid, 1000),
        b"\0AUTH EXTERNAL 31303030\r\n"
    );
    assert_eq!(authentication_request(SaslAuthType::Uid, 0), b"\0AUTH EXTERNAL 30\r\n");
    assert_eq!(
        authentication_request(SaslAuthType::Uid, u32::MAX),
        b"\0AUTH EXTERNAL 34323934393637323935\r\n"
    );
    assert_eq!(
        authentication_request(SaslAuthType::Other("abc"), 1000),
        b"\0AUTH EXTERNAL abc\r\n"
    );
    assert_eq!(begin_request(), b"BEGIN\r\n");
}

#[test]
fn the_server_guid_is_read_from_the_reply() {
    assert_eq!(
        server_guid_in(b"OK 00112233445566778899aabbccddeeff\r\n"),
        Ok(b"00112233445566778899aabbccddeeff".to_vec())
    );
}

#[test]
fn the_native_byte_order_is_the_one_of_the_machine() {
    let expected = if 1u16.to_ne_bytes()[0] == 1 { Endianness::Little } else { Endianness::Big };
    assert_eq!(Endianness::native(), expected);
}

#[test]
fn the_byte_order_is_told_by_the_first_byte_of_one() {
    assert_eq!(Endianness::of_one([1, 0]), Endianness::Little);
    assert_eq!(Endianness::of_one([0, 1]), Endianness::Big);
    assert_eq!(Endianness::of_one(1u16.to_le_bytes()), Endianness::Little);
    assert_eq!(Endianness::of_one(1u16.to_be_bytes()), Endianness::Big);
}
