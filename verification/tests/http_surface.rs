use rustymedia::dlna::{percent_encode_path, Request};
use rustymedia::server::{
    browse_didl, parse_range, parse_soap_action, plan_range, render_root_xml, respond_soap,
    respond_soap_fault, route, Route, SoapAction,
};
use rustymedia::types::{BodyBrowseResponse, BrowseResponse, DidlResult};
use rustymedia::MediaSize;

#[test]
fn test_routes() {
    let mut r = Request::new("/root.xml".to_string());
    assert_eq!(route(&mut r, "GET"), Route::RootXml);
    let mut r = Request::new("/root.xml".to_string());
    assert_eq!(route(&mut r, "POST"), Route::MethodNotAllowed);
    let mut r = Request::new("/connection/desc.xml".to_string());
    assert_eq!(route(&mut r, "GET"), Route::ConnectionDesc);
    let mut r = Request::new("/content/desc.xml".to_string());
    assert_eq!(route(&mut r, "GET"), Route::ContentDesc);
    let mut r = Request::new("/content/control".to_string());
    assert_eq!(route(&mut r, "POST"), Route::ContentControl);
    let mut r = Request::new("/video/Local%2Fclip.mkv".to_string());
    assert_eq!(route(&mut r, "GET"), Route::Video);
    assert_eq!(r.path(), "Local%2Fclip.mkv");
    let mut r = Request::new("/favicon.ico".to_string());
    assert_eq!(route(&mut r, "GET"), Route::NotFound);
}

#[test]
fn test_decoded_path() {
    let mut r = Request::new("/video/Local%2Fclip.mkv".to_string());
    assert_eq!(route(&mut r, "GET"), Route::Video);
    assert_eq!(r.decoded_path().unwrap(), "Local/clip.mkv");
}

#[test]
fn test_decoded_path_rejects_bad_utf8() {
    // %FF decodes to a byte no text can hold.
    let r = Request::new("%FFclip".to_string());
    assert!(matches!(
        r.decoded_path(),
        Err(rustymedia::error::Error::Utf8)
    ));
}

#[test]
fn test_percent_encode_path_segment() {
    assert_eq!(percent_encode_path("Local/clip.mkv"), "Local%2Fclip.mkv");
    assert_eq!(percent_encode_path("a b?c"), "a%20b%3Fc");
    assert_eq!(percent_encode_path("plain-name_1.mkv"), "plain-name_1.mkv");
}

#[test]
fn test_passthrough_range() {
    // `Range: bytes=100-199` over a complete body: 206, the exact window,
    // a hundred bytes.
    let range = parse_range("bytes=100-199");
    assert_eq!(range, Some((100, Some(199))));
    let size = MediaSize { available: 5000, total: Some(5000) };
    let plan = plan_range(range, &size);
    assert_eq!(plan.status, 206);
    assert_eq!(plan.content_range, Some((100, 199)));
    assert_eq!(plan.total, Some(5000));
    assert_eq!(plan.content_length, Some(100));
    assert_eq!(plan.read_start, 100);
    assert_eq!(plan.read_end, 200);
}

#[test]
fn test_open_ended_and_unsatisfiable_ranges() {
    let size = MediaSize { available: 1000, total: Some(1000) };
    let plan = plan_range(parse_range("bytes=900-"), &size);
    assert_eq!(plan.status, 206);
    assert_eq!(plan.content_range, Some((900, 999)));
    assert_eq!(plan.content_length, Some(100));
    // A start past the available bytes falls back to the whole body.
    let plan = plan_range(parse_range("bytes=2000-"), &size);
    assert_eq!(plan.status, 200);
    assert_eq!(plan.content_length, Some(1000));
    // A suffix range is ignored.
    let plan = plan_range(parse_range("bytes=-500"), &size);
    assert_eq!(plan.status, 200);
    // An end past the available bytes is clipped.
    let plan = plan_range(parse_range("bytes=990-5000"), &size);
    assert_eq!(plan.content_range, Some((990, 999)));
}

#[test]
fn test_growing_body_has_no_length() {
    // A transcode in progress: no total, so a plain request gets 200 with
    // no Content-Length until the encoder finishes.
    let size = MediaSize { available: 4096, total: None };
    let plan = plan_range(None, &size);
    assert_eq!(plan.status, 200);
    assert_eq!(plan.content_length, None);
    assert_eq!(plan.read_start, 0);
}

#[test]
fn test_soap_actions() {
    assert!(matches!(
        parse_soap_action(Some(
            "\"urn:schemas-upnp-org:service:ContentDirectory:1#Browse\""
        )),
        SoapAction::Browse
    ));
    match parse_soap_action(Some(
        "\"urn:schemas-upnp-org:service:ContentDirectory:1#Search\"",
    )) {
        SoapAction::Unknown(a) => assert_eq!(a, "Search"),
        _ => panic!("expected an unknown action"),
    }
    match parse_soap_action(Some("\"urn:example:other#Browse\"")) {
        SoapAction::BadNamespace(a) => assert_eq!(a, "urn:example:other#Browse"),
        _ => panic!("expected a namespace complaint"),
    }
    assert!(matches!(parse_soap_action(None), SoapAction::MissingHeader));
}

#[test]
fn test_soap_fault_body() {
    // An unknown action is answered with a client fault.
    let xml = respond_soap_fault("Unknown action \"Search\"");
    assert_eq!(
        xml,
        "<Envelope><Body><Fault faultcode=\"SOAP-ENV:Client\" faultstring=\"Unknown action &quot;Search&quot;\"/></Body></Envelope>"
    );
}

#[test]
fn test_browse_root_lists_roots_in_insertion_order() {
    let mut root = rustymedia::root::Root::new();
    root.add(rustymedia::local::Object::new_root(
        "Videos".to_string(),
        "/srv/videos".to_string(),
    ));
    root.add(rustymedia::local::Object::new_root(
        "Local".to_string(),
        "/media".to_string(),
    ));
    let children = root.children();
    let didl = browse_didl(&children, "http://10.0.0.2:4950");
    assert_eq!(didl.items.len(), 0);
    assert_eq!(didl.containers.len(), 2);
    assert_eq!(didl.containers[0].id, "Videos");
    // The root's title is the registered name, not the directory basename.
    assert_eq!(didl.containers[0].title, "Videos");
    assert_eq!(didl.containers[0].parent_id, "0");
    assert_eq!(didl.containers[0].class, "object.container.storageFolder");
    assert!(didl.containers[0].restricted);
    assert_eq!(didl.containers[1].id, "Local");
    assert_eq!(didl.xmlns, "urn:schemas-upnp-org:metadata-1-0/DIDL-Lite/");
    assert_eq!(didl.xmlns_dc, "http://purl.org/dc/elements/1.1/");
    assert_eq!(didl.xmlns_upnp, "urn:schemas-upnp-org:metadata-1-0/upnp/");
}

#[test]
fn test_browse_response_xml() {
    let obj = rustymedia::local::Object::new_root("Local".to_string(), "/media".to_string());
    let children = obj.relevant_children(&vec![("clip.mkv".to_string(), false)]);
    let didl = browse_didl(&children, "http://10.0.0.2:4950");
    assert_eq!(didl.items.len(), 1);
    assert_eq!(didl.items[0].res.len(), 1);
    assert_eq!(
        didl.items[0].res[0].uri.0,
        "http://10.0.0.2:4950/video/Local%2Fclip.mkv"
    );
    assert_eq!(didl.items[0].res[0].protocol_info, "http-get:*:video/x-matroska:*");
    let xml = respond_soap(&BodyBrowseResponse {
        browse_response: BrowseResponse {
            result: DidlResult(didl),
            number_returned: 1,
            total_matches: 1,
            update_id: 1,
        },
    });
    assert!(xml.starts_with("<Envelope><Body><BrowseResponse><Result>&lt;DIDL-Lite"));
    assert!(xml.contains("&lt;item id=&quot;Local/clip.mkv&quot;"));
    assert!(xml.ends_with(
        "<NumberReturned>1</NumberReturned><TotalMatches>1</TotalMatches><UpdateId>1</UpdateId></BrowseResponse></Body></Envelope>"
    ));
}

#[test]
fn test_root_xml_template() {
    let xml = render_root_xml("My Server", "uuid:1234");
    assert!(xml.contains("<friendlyName>My Server</friendlyName>"));
    assert!(xml.contains("<UDN>uuid:1234</UDN>"));
    assert!(xml.starts_with("<?xml version=\"1.0\"?><root"));
}
