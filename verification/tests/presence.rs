use rustymedia::discovery::{presence_messages, ssdp_message};

const UUID: &str = "uuid:06289e13-a832-4d76-be0b-00151d439863";

fn expected(nt: &str, usn: &str) -> String {
    format!(
        "NOTIFY * HTTP/1.1\r\nHOST: 239.255.255.250:1900\r\nNT: {}\r\nNTS: ssdp:alive\r\nLOCATION: http://{}/root.xml\r\nUSN: {}\r\nCACHE-CONTROL: max-age=1800\r\nSERVER: somesystem, DLNADOC/1.50 UPnP/1.0, rustmedia/1.0\r\n\r\n",
        nt, "10.0.0.2:4950", usn
    )
}

#[test]
fn test_ssdp_message_shape() {
    let msg = ssdp_message("upnp:rootdevice", "u::upnp:rootdevice", "10.0.0.2:4950");
    assert_eq!(msg, expected("upnp:rootdevice", "u::upnp:rootdevice"));
}

#[test]
fn test_presence_round() {
    // One round carries the five announcements, in order: the bare UUID,
    // the root device, the media server, the connection manager and the
    // content directory.
    let msgs = presence_messages(UUID, "10.0.0.2:4950");
    assert_eq!(msgs.len(), 5);
    assert_eq!(msgs[0], expected(UUID, UUID));
    for (i, nt) in [
        "upnp:rootdevice",
        "urn:schemas-upnp-org:device:MediaServer:1",
        "urn:schemas-upnp-org:service:ConnectionManager:1",
        "urn:schemas-upnp-org:service:ContentDirectory:1",
    ]
    .iter()
    .enumerate()
    {
        let usn = format!("{}::{}", UUID, nt);
        assert_eq!(msgs[i + 1], expected(nt, &usn));
    }
}
