//! SSDP presence: the exact NOTIFY messages the server multicasts.

use vstd::prelude::*;

verus! {

/// One `NOTIFY * HTTP/1.1` announcement, advertising `nt` under `usn`,
/// pointing at the descriptor under `uri`.
pub open spec fn spec_ssdp_message(nt: Seq<char>, usn: Seq<char>, uri: Seq<char>) -> Seq<char> {
    "NOTIFY * HTTP/1.1\r\nHOST: 239.255.255.250:1900\r\nNT: "@ + nt + "\r\nNTS: ssdp:alive\r\nLOCATION: http://"@
        + uri + "/root.xml\r\nUSN: "@ + usn
        + "\r\nCACHE-CONTROL: max-age=1800\r\nSERVER: somesystem, DLNADOC/1.50 UPnP/1.0, rustmedia/1.0\r\n\r\n"@
}

/// Builds one presence announcement.
pub fn ssdp_message(nt: &str, usn: &str, uri: &str) -> (r: String)
    ensures
        r@ == spec_ssdp_message(nt@, usn@, uri@),
{
    let r = String::from_str("NOTIFY * HTTP/1.1\r\nHOST: 239.255.255.250:1900\r\nNT: ").concat(
        nt,
    ).concat("\r\nNTS: ssdp:alive\r\nLOCATION: http://").concat(uri).concat(
        "/root.xml\r\nUSN: ",
    ).concat(usn).concat(
        "\r\nCACHE-CONTROL: max-age=1800\r\nSERVER: somesystem, DLNADOC/1.50 UPnP/1.0, rustmedia/1.0\r\n\r\n",
    );
    proof {
        assert(r@ =~= spec_ssdp_message(nt@, usn@, uri@));
    }
    r
}

/// The `USN` of a device or service type: the server's UUID, two colons,
/// the type.
pub open spec fn spec_usn_of(uuid: Seq<char>, nt: Seq<char>) -> Seq<char> {
    uuid + "::"@ + nt
}

fn usn_of(uuid: &str, nt: &str) -> (r: String)
    ensures
        r@ == spec_usn_of(uuid@, nt@),
{
    let r = String::from_str(uuid).concat("::").concat(nt);
    proof {
        assert(r@ =~= spec_usn_of(uuid@, nt@));
    }
    r
}

/// The five announcements of one presence round, in the order they are
/// sent: the bare UUID, the root device, the media server, the connection
/// manager and the content directory.
pub fn presence_messages(uuid: &str, uri: &str) -> (r: Vec<String>)
    ensures
        crate::ffmpeg::views(r@) == seq![
            spec_ssdp_message(uuid@, uuid@, uri@),
            spec_ssdp_message(
                "upnp:rootdevice"@,
                spec_usn_of(uuid@, "upnp:rootdevice"@),
                uri@,
            ),
            spec_ssdp_message(
                "urn:schemas-upnp-org:device:MediaServer:1"@,
                spec_usn_of(uuid@, "urn:schemas-upnp-org:device:MediaServer:1"@),
                uri@,
            ),
            spec_ssdp_message(
                "urn:schemas-upnp-org:service:ConnectionManager:1"@,
                spec_usn_of(uuid@, "urn:schemas-upnp-org:service:ConnectionManager:1"@),
                uri@,
            ),
            spec_ssdp_message(
                "urn:schemas-upnp-org:service:ContentDirectory:1"@,
                spec_usn_of(uuid@, "urn:schemas-upnp-org:service:ContentDirectory:1"@),
                uri@,
            ),
        ],
{
    let mut r: Vec<String> = Vec::new();
    r.push(ssdp_message(uuid, uuid, uri));
    r.push(
        ssdp_message("upnp:rootdevice", usn_of(uuid, "upnp:rootdevice").as_str(), uri),
    );
    r.push(
        ssdp_message(
            "urn:schemas-upnp-org:device:MediaServer:1",
            usn_of(uuid, "urn:schemas-upnp-org:device:MediaServer:1").as_str(),
            uri,
        ),
    );
    r.push(
        ssdp_message(
            "urn:schemas-upnp-org:service:ConnectionManager:1",
            usn_of(uuid, "urn:schemas-upnp-org:service:ConnectionManager:1").as_str(),
            uri,
        ),
    );
    r.push(
        ssdp_message(
            "urn:schemas-upnp-org:service:ContentDirectory:1",
            usn_of(uuid, "urn:schemas-upnp-org:service:ContentDirectory:1").as_str(),
            uri,
        ),
    );
    proof {
        assert(crate::ffmpeg::views(r@) =~= seq![
            spec_ssdp_message(uuid@, uuid@, uri@),
            spec_ssdp_message(
                "upnp:rootdevice"@,
                spec_usn_of(uuid@, "upnp:rootdevice"@),
                uri@,
            ),
            spec_ssdp_message(
                "urn:schemas-upnp-org:device:MediaServer:1"@,
                spec_usn_of(uuid@, "urn:schemas-upnp-org:device:MediaServer:1"@),
                uri@,
            ),
            spec_ssdp_message(
                "urn:schemas-upnp-org:service:ConnectionManager:1"@,
                spec_usn_of(uuid@, "urn:schemas-upnp-org:service:ConnectionManager:1"@),
                uri@,
            ),
            spec_ssdp_message(
                "urn:schemas-upnp-org:service:ContentDirectory:1"@,
                spec_usn_of(uuid@, "urn:schemas-upnp-org:service:ContentDirectory:1"@),
                uri@,
            ),
        ]);
    }
    r
}

} // verus!
