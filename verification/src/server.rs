//! The request-facing logic: path routing, byte-range planning, SOAP
//! action parsing, and the exact bytes of every response body.

use vstd::prelude::*;
use vstd::string::StringSliceAdditionalSpecFns;

verus! {

/// The first `/`-separated segment of a path remainder.
pub open spec fn first_seg(s: Seq<char>) -> Seq<char> {
    s.take(crate::local::seg_len(s))
}

/// What is left after the first segment and its separator.
pub open spec fn rest_after(s: Seq<char>) -> Seq<char> {
    if crate::local::seg_len(s) < s.len() {
        s.skip(crate::local::seg_len(s) + 1)
    } else {
        Seq::empty()
    }
}

/// Everything the surrounding process hands the server when it starts: the
/// base URI responses point back at, the display name, the UUID it
/// announces, and the tree it serves.
#[derive(Debug)]
pub struct ServerArgs {
    pub uri: String,
    pub name: String,
    pub uuid: String,
    pub root: crate::root::Root,
}

/// Where a request path leads.
#[derive(Clone, Copy, Debug, PartialEq, Eq, Structural)]
pub enum Route {
    /// The device descriptor, for a GET.
    RootXml,
    /// The device descriptor asked for with another method.
    MethodNotAllowed,
    /// The ConnectionManager service descriptor.
    ConnectionDesc,
    /// The ContentDirectory service descriptor.
    ContentDesc,
    /// The SOAP control endpoint.
    ContentControl,
    /// A media body; the rest of the path names the object.
    Video,
    /// Anything else.
    NotFound,
}

/// The routing decision for a path remainder and a request method.
pub open spec fn spec_route(s: Seq<char>, method: Seq<char>) -> Route {
    let seg1 = first_seg(s);
    let r1 = rest_after(s);
    if seg1 == "root.xml"@ {
        if method == "GET"@ {
            Route::RootXml
        } else {
            Route::MethodNotAllowed
        }
    } else if seg1 == "connection"@ {
        if first_seg(r1) == "desc.xml"@ {
            Route::ConnectionDesc
        } else {
            Route::NotFound
        }
    } else if seg1 == "content"@ {
        if first_seg(r1) == "control"@ {
            Route::ContentControl
        } else if first_seg(r1) == "desc.xml"@ {
            Route::ContentDesc
        } else {
            Route::NotFound
        }
    } else if seg1 == "video"@ {
        Route::Video
    } else {
        Route::NotFound
    }
}

/// Decides where a request goes. For a media request the cursor is left
/// right after the `video` segment: what remains is the encoded object id.
pub fn route(req: &mut crate::dlna::Request, method: &str) -> (r: Route)
    requires
        old(req).wf(),
    ensures
        final(req).wf(),
        r == spec_route(old(req).path@.skip(old(req).path_offset as int), method@),
        r == Route::Video ==> final(req).path@.skip(final(req).path_offset as int) == rest_after(
            old(req).path@.skip(old(req).path_offset as int),
        ),
{
    let ghost s0 = req.path@.skip(req.path_offset as int);
    let seg1 = req.pop();
    proof {
        crate::local::lemma_seg_len_bounds(s0);
        if crate::local::seg_len(s0) < s0.len() {
            assert(req.path@.skip(req.path_offset as int) =~= rest_after(s0));
        } else {
            assert(req.path@.skip(req.path_offset as int) =~= Seq::<char>::empty());
            assert(rest_after(s0) =~= Seq::<char>::empty());
        }
    }
    if crate::ffmpeg::str_eq(seg1.as_str(), "root.xml") {
        if crate::ffmpeg::str_eq(method, "GET") {
            Route::RootXml
        } else {
            Route::MethodNotAllowed
        }
    } else if crate::ffmpeg::str_eq(seg1.as_str(), "connection") {
        let seg2 = req.pop();
        if crate::ffmpeg::str_eq(seg2.as_str(), "desc.xml") {
            Route::ConnectionDesc
        } else {
            Route::NotFound
        }
    } else if crate::ffmpeg::str_eq(seg1.as_str(), "content") {
        let seg2 = req.pop();
        if crate::ffmpeg::str_eq(seg2.as_str(), "control") {
            Route::ContentControl
        } else if crate::ffmpeg::str_eq(seg2.as_str(), "desc.xml") {
            Route::ContentDesc
        } else {
            Route::NotFound
        }
    } else if crate::ffmpeg::str_eq(seg1.as_str(), "video") {
        Route::Video
    } else {
        Route::NotFound
    }
}

/// The numeric value of a digit string read left to right onto an
/// accumulator; a non-digit spoils it.
pub open spec fn valrec(s: Seq<char>, acc: int) -> Option<int>
    decreases s.len(),
{
    if s.len() == 0 {
        Some(acc)
    } else if crate::is_digit_c(s[0]) {
        valrec(s.drop_first(), acc * 10 + (s[0] as u32 - 48))
    } else {
        None
    }
}

/// The value of a decimal string, when it is one and fits in 64 bits.
pub open spec fn spec_parse_u64(s: Seq<char>) -> Option<int> {
    if s.len() == 0 {
        None
    } else {
        match valrec(s, 0) {
            Some(v) => if v <= 0xffff_ffff_ffff_ffff {
                Some(v)
            } else {
                None
            },
            None => None,
        }
    }
}

proof fn lemma_valrec_lower(s: Seq<char>, acc: int)
    requires
        acc >= 0,
    ensures
        match valrec(s, acc) {
            Some(v) => v >= acc,
            None => true,
        },
    decreases s.len(),
{
    if s.len() > 0 && crate::is_digit_c(s[0]) {
        lemma_valrec_lower(s.drop_first(), acc * 10 + (s[0] as u32 - 48));
    }
}

proof fn lemma_valrec_step(s: Seq<char>, i: int, acc: int)
    requires
        0 <= i < s.len(),
    ensures
        valrec(s.skip(i), acc) == if crate::is_digit_c(s[i]) {
            valrec(s.skip(i + 1), acc * 10 + (s[i] as u32 - 48))
        } else {
            None::<int>
        },
{
    assert(s.skip(i)[0] == s[i]);
    assert(s.skip(i).drop_first() =~= s.skip(i + 1));
}

/// Parses a decimal number; anything else, or a value over 64 bits, is
/// rejected.
pub fn parse_u64(s: &str) -> (r: Option<u64>)
    ensures
        match r {
            Some(v) => spec_parse_u64(s@) == Some(v as int),
            None => spec_parse_u64(s@) is None,
        },
{
    let chars = crate::chars_of(s);
    if chars.len() == 0 {
        return None;
    }
    let mut acc: u64 = 0;
    let mut i: usize = 0;
    proof {
        assert(chars@.skip(0) =~= chars@);
    }
    while i < chars.len()
        invariant
            0 <= i <= chars@.len(),
            chars@ == s@,
            chars@.len() > 0,
            valrec(s@, 0) == valrec(s@.skip(i as int), acc as int),
        decreases chars@.len() - i,
    {
        proof {
            lemma_valrec_step(s@, i as int, acc as int);
        }
        let c = chars[i];
        let u = c as u32;
        if !(48 <= u && u <= 57) {
            return None;
        }
        let d = (u - 48) as u64;
        if acc > (0xffff_ffff_ffff_ffffu64 - d) / 10 {
            proof {
                lemma_valrec_lower(s@.skip(i + 1), acc as int * 10 + d as int);
            }
            return None;
        }
        acc = acc * 10 + d;
        i = i + 1;
    }
    proof {
        assert(s@.skip(i as int) =~= Seq::<char>::empty());
    }
    Some(acc)
}

/// Length of the leading run before a given character.
pub open spec fn upto(s: Seq<char>, c: char) -> int
    decreases s.len(),
{
    if s.len() == 0 || s[0] == c {
        0
    } else {
        1 + upto(s.drop_first(), c)
    }
}

proof fn lemma_upto_bounds(s: Seq<char>, c: char)
    ensures
        0 <= upto(s, c) <= s.len(),
        forall|j: int| 0 <= j < upto(s, c) ==> s[j] != c,
        upto(s, c) < s.len() ==> s[upto(s, c)] == c,
    decreases s.len(),
{
    if s.len() > 0 && s[0] != c {
        lemma_upto_bounds(s.drop_first(), c);
        assert forall|j: int| 0 <= j < upto(s, c) implies s[j] != c by {
            if j > 0 {
                assert(s.drop_first()[j - 1] == s[j]);
            }
        }
        if upto(s, c) < s.len() {
            assert(s.drop_first()[upto(s.drop_first(), c)] == s[upto(s, c)]);
        }
    }
}

fn upto_exec(v: &Vec<char>, start: usize, c: char) -> (n: usize)
    requires
        start <= v@.len(),
    ensures
        n as int == upto(v@.skip(start as int), c),
        start + n <= v@.len(),
{
    let ghost s = v@.skip(start as int);
    let mut j: usize = start;
    while j < v.len() && v[j] != c
        invariant
            start <= j <= v@.len(),
            s == v@.skip(start as int),
            forall|k: int| 0 <= k < j - start ==> s[k] != c,
        decreases v@.len() - j,
    {
        j = j + 1;
    }
    proof {
        lemma_upto_bounds(s, c);
        let e = j - start;
        let r = upto(s, c);
        if e < r {
            assert(s[e] != c);
            assert(false);
        }
        if r < e {
            assert(s[r] != c);
            assert(false);
        }
    }
    j - start
}

/// The first byte-range a Range header asks for: `bytes=a-b` or `bytes=a-`.
/// A suffix range, an unreadable number or an inverted pair count as no
/// range.
pub open spec fn spec_parse_range(h: Seq<char>) -> Option<(int, Option<int>)> {
    if h.len() < 6 || h.take(6) != "bytes="@ {
        None
    } else {
        let body = h.skip(6).take(upto(h.skip(6), ','));
        let d = upto(body, '-');
        if d >= body.len() {
            None
        } else {
            let start_str = body.take(d);
            let end_str = body.skip(d + 1);
            match spec_parse_u64(start_str) {
                None => None,
                Some(start) => if end_str.len() == 0 {
                    Some((start, None))
                } else {
                    match spec_parse_u64(end_str) {
                        None => None,
                        Some(end) => if end >= start {
                            Some((start, Some(end)))
                        } else {
                            None
                        },
                    }
                },
            }
        }
    }
}

/// Parses a Range header into its first byte-range.
pub fn parse_range(h: &str) -> (r: Option<(u64, Option<u64>)>)
    ensures
        match r {
            Some((s, Some(e))) => spec_parse_range(h@) == Some((s as int, Some(e as int))),
            Some((s, None)) => spec_parse_range(h@) == Some((s as int, None::<int>)),
            None => spec_parse_range(h@) is None,
        },
{
    let chars = crate::chars_of(h);
    let n = chars.len();
    if n < 6 {
        return None;
    }
    let head = h.substring_char(0, 6);
    proof {
        assert(h@.subrange(0, 6) =~= h@.take(6));
    }
    if !crate::ffmpeg::str_eq(head, "bytes=") {
        return None;
    }
    let comma = upto_exec(&chars, 6, ',');
    let ghost body = h@.skip(6).take(upto(h@.skip(6), ','));
    proof {
        assert(h@.subrange(6, 6 + comma) =~= body);
    }
    let dash = upto_exec(&chars, 6, '-');
    let ghost d = upto(body, '-');
    proof {
        lemma_upto_bounds(h@.skip(6), ',');
        lemma_upto_bounds(h@.skip(6), '-');
        lemma_upto_bounds(body, '-');
        let hd = upto(h@.skip(6), '-');
        if d < body.len() {
            if hd < d {
                assert(body[hd] == h@.skip(6)[hd]);
                assert(false);
            }
            if d < hd {
                assert(h@.skip(6)[d] == body[d]);
                assert(false);
            }
        }
    }
    if dash >= comma {
        proof {
            if d < body.len() {
                assert(false);
            }
        }
        return None;
    }
    proof {
        assert(d == dash as int);
        assert(body.take(d) =~= h@.subrange(6, 6 + dash));
        assert(body.skip(d + 1) =~= h@.subrange(6 + dash + 1, 6 + comma));
    }
    let start_str = h.substring_char(6, 6 + dash);
    let end_str = h.substring_char(6 + dash + 1, 6 + comma);
    let start = match parse_u64(start_str) {
        None => {
            return None;
        },
        Some(v) => v,
    };
    if end_str.unicode_len() == 0 {
        return Some((start, None));
    }
    match parse_u64(end_str) {
        None => None,
        Some(end) => if end >= start {
            Some((start, Some(end)))
        } else {
            None
        },
    }
}

/// Length of the leading run of double quotes.
pub open spec fn quote_start(s: Seq<char>) -> int
    decreases s.len(),
{
    if s.len() > 0 && s[0] == '"' {
        1 + quote_start(s.drop_first())
    } else {
        0
    }
}

/// End of the text once trailing double quotes are dropped.
pub open spec fn quote_end(s: Seq<char>) -> int
    decreases s.len(),
{
    if s.len() > 0 && s[s.len() - 1] == '"' {
        quote_end(s.drop_last())
    } else {
        s.len() as int
    }
}

/// A header value with the double quotes around it removed.
pub open spec fn spec_trim_quotes(s: Seq<char>) -> Seq<char> {
    if quote_start(s) >= quote_end(s) {
        Seq::empty()
    } else {
        s.subrange(quote_start(s), quote_end(s))
    }
}

proof fn lemma_quote_start_bounds(s: Seq<char>)
    ensures
        0 <= quote_start(s) <= s.len(),
        forall|j: int| 0 <= j < quote_start(s) ==> s[j] == '"',
        quote_start(s) < s.len() ==> s[quote_start(s)] != '"',
    decreases s.len(),
{
    if s.len() > 0 && s[0] == '"' {
        lemma_quote_start_bounds(s.drop_first());
        assert forall|j: int| 0 <= j < quote_start(s) implies s[j] == '"' by {
            if j > 0 {
                assert(s.drop_first()[j - 1] == s[j]);
            }
        }
        if quote_start(s) < s.len() {
            assert(s.drop_first()[quote_start(s.drop_first())] == s[quote_start(s)]);
        }
    }
}

proof fn lemma_quote_end_bounds(s: Seq<char>)
    ensures
        0 <= quote_end(s) <= s.len(),
        forall|j: int| quote_end(s) <= j < s.len() ==> s[j] == '"',
        quote_end(s) > 0 ==> s[quote_end(s) - 1] != '"',
    decreases s.len(),
{
    if s.len() > 0 && s[s.len() - 1] == '"' {
        lemma_quote_end_bounds(s.drop_last());
        assert forall|j: int| quote_end(s) <= j < s.len() implies s[j] == '"' by {
            if j < s.len() - 1 {
                assert(s.drop_last()[j] == s[j]);
            }
        }
        if quote_end(s) > 0 {
            assert(s.drop_last()[quote_end(s.drop_last()) - 1] == s[quote_end(s) - 1]);
        }
    }
}

/// Removes the double quotes around a header value.
pub fn trim_quotes(s: &str) -> (r: String)
    ensures
        r@ == spec_trim_quotes(s@),
{
    let chars = crate::chars_of(s);
    let n = chars.len();
    let mut a: usize = 0;
    while a < n && chars[a] == '"'
        invariant
            0 <= a <= n,
            n == chars@.len(),
            chars@ == s@,
            forall|k: int| 0 <= k < a ==> s@[k] == '"',
        decreases n - a,
    {
        a = a + 1;
    }
    let mut b: usize = n;
    while b > a && chars[b - 1] == '"'
        invariant
            a <= b <= n,
            n == chars@.len(),
            chars@ == s@,
            forall|k: int| 0 <= k < a ==> s@[k] == '"',
            a < n ==> s@[a as int] != '"',
            forall|k: int| b <= k < n ==> s@[k] == '"',
        decreases b,
    {
        b = b - 1;
    }
    proof {
        lemma_quote_start_bounds(s@);
        lemma_quote_end_bounds(s@);
        let qs = quote_start(s@);
        let qe = quote_end(s@);
        if (a as int) < qs {
            assert(s@[a as int] == '"');
            assert(false);
        }
        if qs < a as int {
            assert(s@[qs] != '"');
            assert(s@[qs] == '"');
            assert(false);
        }
        if a == b {
            if qs < qe {
                assert(s@[qe - 1] != '"');
                assert(qe - 1 >= a);
                assert(s@[qe - 1] == '"');
                assert(false);
            }
        } else {
            assert(s@[b - 1] != '"');
            if (b as int) < qe {
                assert(s@[qe - 1] != '"');
                assert(qe <= b ==> false);
                assert(s@[b as int] == '"');
                assert(false);
            }
            if qe < b as int {
                assert(s@[b - 1] == '"');
                assert(false);
            }
        }
    }
    if a >= b {
        String::new()
    } else {
        let r = s.substring_char(a, b);
        proof {
            assert(s@.subrange(a as int, b as int) =~= spec_trim_quotes(s@));
        }
        String::from_str(r)
    }
}

/// What a Soapaction header asks for.
#[derive(Debug)]
pub enum SoapAction {
    /// A ContentDirectory Browse.
    Browse,
    /// A ContentDirectory action this server does not implement; carries
    /// the action's name.
    Unknown(String),
    /// An action outside the ContentDirectory namespace; carries the whole
    /// header value, quotes removed.
    BadNamespace(String),
    /// The header was absent.
    MissingHeader,
}

/// The ContentDirectory action-namespace prefix.
pub open spec fn spec_cd_prefix() -> Seq<char> {
    "urn:schemas-upnp-org:service:ContentDirectory:1#"@
}

/// Reads a Soapaction header: quotes are stripped, the value must carry
/// the ContentDirectory namespace, and only Browse is implemented.
pub fn parse_soap_action(header: Option<&str>) -> (r: SoapAction)
    ensures
        match header {
            None => r is MissingHeader,
            Some(h) => {
                let t = spec_trim_quotes(h@);
                if t.len() < spec_cd_prefix().len() || t.take(spec_cd_prefix().len() as int)
                    != spec_cd_prefix() {
                    r matches SoapAction::BadNamespace(a) && a@ == t
                } else if t.skip(spec_cd_prefix().len() as int) == "Browse"@ {
                    r is Browse
                } else {
                    r matches SoapAction::Unknown(a) && a@ == t.skip(
                        spec_cd_prefix().len() as int,
                    )
                }
            },
        },
{
    let h = match header {
        None => {
            return SoapAction::MissingHeader;
        },
        Some(h) => h,
    };
    let t = trim_quotes(h);
    let n = t.as_str().unicode_len();
    let prefix = "urn:schemas-upnp-org:service:ContentDirectory:1#";
    let plen = prefix.unicode_len();
    if n < plen {
        return SoapAction::BadNamespace(t);
    }
    let head = t.as_str().substring_char(0, plen);
    proof {
        assert(t@.subrange(0, plen as int) =~= t@.take(plen as int));
    }
    if !crate::ffmpeg::str_eq(head, prefix) {
        return SoapAction::BadNamespace(t);
    }
    let suffix = t.as_str().substring_char(plen, n);
    proof {
        assert(t@.subrange(plen as int, n as int) =~= t@.skip(plen as int));
    }
    if crate::ffmpeg::str_eq(suffix, "Browse") {
        SoapAction::Browse
    } else {
        SoapAction::Unknown(String::from_str(suffix))
    }
}

/// The exact SOAP envelope of a Browse response: the listing document is
/// carried, escaped, inside the `Result` element.
pub open spec fn spec_soap_browse_xml(b: crate::types::BodyBrowseResponse) -> Seq<char> {
    "<"@ + "Envelope"@ + ">"@ + "<"@ + "Body"@ + ">"@ + "<"@ + "BrowseResponse"@ + ">"@
        + crate::types::spec_child(
        "Result"@,
        crate::xml::xml_escaped(crate::types::spec_didl_xml(b.browse_response.result.0)),
    ) + crate::types::spec_child(
        "NumberReturned"@,
        crate::xml::spec_dec_u64(b.browse_response.number_returned as nat),
    ) + crate::types::spec_child(
        "TotalMatches"@,
        crate::xml::spec_dec_u64(b.browse_response.total_matches as nat),
    ) + crate::types::spec_child(
        "UpdateId"@,
        crate::xml::spec_dec_u64(b.browse_response.update_id as nat),
    ) + "</"@ + "BrowseResponse"@ + ">"@ + "</"@ + "Body"@ + ">"@ + "</"@ + "Envelope"@ + ">"@
}

/// Renders a Browse response as one SOAP document.
#[verifier::rlimit(60)]
pub fn respond_soap(body: &crate::types::BodyBrowseResponse) -> (r: String)
    ensures
        r@ == spec_soap_browse_xml(*body),
{
    let mut inner = crate::xml::Serializer::new();
    body.browse_response.result.0.to_xml(&mut inner);
    let didl = inner.into_string();
    let mut ser = crate::xml::Serializer::new();
    let mut env = ser.serialize_struct("Envelope");
    let mut soap_body = env.serialize_sub_struct(&mut ser, "Body");
    let mut resp = soap_body.serialize_sub_struct(&mut ser, "BrowseResponse");
    resp.enter_body(&mut ser);
    resp.serialize_field(&mut ser, "Result", &crate::xml::XmlValue::Str(didl));
    resp.serialize_field(
        &mut ser,
        "NumberReturned",
        &crate::xml::XmlValue::UInt(body.browse_response.number_returned),
    );
    resp.serialize_field(
        &mut ser,
        "TotalMatches",
        &crate::xml::XmlValue::UInt(body.browse_response.total_matches),
    );
    resp.serialize_field(
        &mut ser,
        "UpdateId",
        &crate::xml::XmlValue::UInt(body.browse_response.update_id),
    );
    resp.end(&mut ser);
    soap_body.end(&mut ser);
    env.end(&mut ser);
    let r = ser.into_string();
    proof {
        assert(r@ =~= spec_soap_browse_xml(*body));
    }
    r
}

/// The exact SOAP envelope of a fault laid at the client's feet.
pub open spec fn spec_soap_fault_xml(msg: Seq<char>) -> Seq<char> {
    "<"@ + "Envelope"@ + ">"@ + "<"@ + "Body"@ + ">"@ + "<"@ + "Fault"@ + crate::types::spec_attr(
        "faultcode"@,
        crate::xml::xml_escaped("SOAP-ENV:Client"@),
    ) + crate::types::spec_attr("faultstring"@, crate::xml::xml_escaped(msg)) + "/>"@ + "</"@
        + "Body"@ + ">"@ + "</"@ + "Envelope"@ + ">"@
}

/// Renders a client fault as one SOAP document.
pub fn respond_soap_fault(msg: &str) -> (r: String)
    ensures
        r@ == spec_soap_fault_xml(msg@),
{
    let mut ser = crate::xml::Serializer::new();
    let mut env = ser.serialize_struct("Envelope");
    let mut soap_body = env.serialize_sub_struct(&mut ser, "Body");
    let mut fault = soap_body.serialize_sub_struct(&mut ser, "Fault");
    fault.serialize_field(
        &mut ser,
        "faultcode",
        &crate::xml::XmlValue::Str(String::from_str("SOAP-ENV:Client")),
    );
    fault.serialize_field(
        &mut ser,
        "faultstring",
        &crate::xml::XmlValue::Str(String::from_str(msg)),
    );
    fault.end(&mut ser);
    soap_body.end(&mut ser);
    env.end(&mut ser);
    let r = ser.into_string();
    proof {
        assert(r@ =~= spec_soap_fault_xml(msg@));
    }
    r
}

/// The parent id a listing reports for a node.
pub open spec fn spec_parent_id(o: crate::local::Object) -> Seq<char> {
    if crate::seg_start(o.id@) > 0 {
        o.id@.take(crate::seg_start(o.id@) - 1)
    } else {
        "0"@
    }
}

/// A container entry faithfully describes a directory node.
pub open spec fn container_matches(c: crate::types::Container, o: crate::local::Object) -> bool {
    &&& c.id@ == o.id@
    &&& c.parent_id@ == spec_parent_id(o)
    &&& c.restricted
    &&& c.title@ == crate::local::spec_title(o)
    &&& c.class@ == crate::local::spec_dlna_class(crate::local::spec_file_type(o.dir, o.path@))
}

/// An item entry faithfully describes a file node, with one resource whose
/// URL names the object below `/video/`.
pub open spec fn item_matches(
    it: crate::types::Item,
    o: crate::local::Object,
    base: Seq<char>,
) -> bool {
    &&& it.id@ == o.id@
    &&& it.parent_id@ == spec_parent_id(o)
    &&& it.restricted
    &&& it.title@ == crate::local::spec_title(o)
    &&& it.class@ == crate::local::spec_dlna_class(crate::local::spec_file_type(o.dir, o.path@))
    &&& it.res@.len() == 1
    &&& it.res@[0].protocol_info@ == "http-get:*:video/x-matroska:*"@
    &&& it.res@[0].uri.0@ == base + "/video/"@ + crate::dlna::pct_path(crate::spec_bytes_of(o.id@))
}

/// Builds the listing document of a Browse response: the given children,
/// already filtered and ordered, split into containers and items, each
/// item pointing back at this server's media endpoint.
pub fn browse_didl(children: &Vec<crate::local::Object>, base_uri: &str) -> (r:
    crate::types::DidlLite)
    ensures
        r.xmlns@ == "urn:schemas-upnp-org:metadata-1-0/DIDL-Lite/"@,
        r.xmlns_dc@ == "http://purl.org/dc/elements/1.1/"@,
        r.xmlns_upnp@ == "urn:schemas-upnp-org:metadata-1-0/upnp/"@,
        r.containers@.len() == children@.filter(|o: crate::local::Object| o.dir).len(),
        forall|k: int|
            0 <= k < r.containers@.len() ==> container_matches(
                #[trigger] r.containers@[k],
                children@.filter(|o: crate::local::Object| o.dir)[k],
            ),
        r.items@.len() == children@.filter(|o: crate::local::Object| !o.dir).len(),
        forall|k: int|
            0 <= k < r.items@.len() ==> item_matches(
                #[trigger] r.items@[k],
                children@.filter(|o: crate::local::Object| !o.dir)[k],
                base_uri@,
            ),
{
    let mut containers: Vec<crate::types::Container> = Vec::new();
    let mut items: Vec<crate::types::Item> = Vec::new();
    let mut i: usize = 0;
    proof {
        assert(children@.take(0) =~= Seq::<crate::local::Object>::empty());
        assert(children@.take(0).filter(|o: crate::local::Object| o.dir) =~= Seq::<
            crate::local::Object,
        >::empty());
        assert(children@.take(0).filter(|o: crate::local::Object| !o.dir) =~= Seq::<
            crate::local::Object,
        >::empty());
    }
    while i < children.len()
        invariant
            0 <= i <= children@.len(),
            containers@.len() == children@.take(i as int).filter(
                |o: crate::local::Object| o.dir,
            ).len(),
            forall|k: int|
                0 <= k < containers@.len() ==> container_matches(
                    #[trigger] containers@[k],
                    children@.take(i as int).filter(|o: crate::local::Object| o.dir)[k],
                ),
            items@.len() == children@.take(i as int).filter(
                |o: crate::local::Object| !o.dir,
            ).len(),
            forall|k: int|
                0 <= k < items@.len() ==> item_matches(
                    #[trigger] items@[k],
                    children@.take(i as int).filter(|o: crate::local::Object| !o.dir)[k],
                    base_uri@,
                ),
        decreases children@.len() - i,
    {
        let entry = &children[i];
        proof {
            assert(children@.take(i + 1).drop_last() =~= children@.take(i as int));
            assert(children@.take(i + 1).last() == children@[i as int]);
            reveal(Seq::filter);
        }
        if entry.is_dir() {
            let c = crate::types::Container {
                id: String::from_str(entry.id()),
                parent_id: entry.parent_id(),
                restricted: true,
                title: entry.title(),
                class: String::from_str(entry.dlna_class()),
            };
            containers.push(c);
        } else {
            let enc = crate::dlna::percent_encode_path(entry.id());
            let uri = String::from_str(base_uri).concat("/video/").concat(enc.as_str());
            let mut res: Vec<crate::types::Res> = Vec::new();
            res.push(
                crate::types::Res {
                    protocol_info: String::from_str("http-get:*:video/x-matroska:*"),
                    uri: crate::xml::Body(uri),
                },
            );
            let it = crate::types::Item {
                id: String::from_str(entry.id()),
                parent_id: entry.parent_id(),
                restricted: true,
                res,
                title: entry.title(),
                class: String::from_str(entry.dlna_class()),
            };
            items.push(it);
        }
        i = i + 1;
    }
    proof {
        assert(children@.take(children@.len() as int) =~= children@);
    }
    crate::types::DidlLite {
        xmlns: String::from_str("urn:schemas-upnp-org:metadata-1-0/DIDL-Lite/"),
        xmlns_dc: String::from_str("http://purl.org/dc/elements/1.1/"),
        xmlns_upnp: String::from_str("urn:schemas-upnp-org:metadata-1-0/upnp/"),
        containers,
        items,
    }
}

/// The device descriptor served at `/root.xml`, with the server's name and
/// UUID filled in.
pub open spec fn spec_root_xml(name: Seq<char>, uuid: Seq<char>) -> Seq<char> {
    "<?xml version=\"1.0\"?><root xmlns=\"urn:schemas-upnp-org:device-1-0\"><specVersion><major>1</major><minor>0</minor></specVersion><device><deviceType>urn:schemas-upnp-org:device:MediaServer:1</deviceType><friendlyName>"@
        + crate::xml::xml_escaped(name)
        + "</friendlyName><manufacturer>rustymedia</manufacturer><modelName>rustymedia</modelName><UDN>"@
        + crate::xml::xml_escaped(uuid)
        + "</UDN><serviceList><service><serviceType>urn:schemas-upnp-org:service:ContentDirectory:1</serviceType><serviceId>urn:upnp-org:serviceId:ContentDirectory</serviceId><SCPDURL>/content/desc.xml</SCPDURL><controlURL>/content/control</controlURL><eventSubURL>/content/events</eventSubURL></service><service><serviceType>urn:schemas-upnp-org:service:ConnectionManager:1</serviceType><serviceId>urn:upnp-org:serviceId:ConnectionManager</serviceId><SCPDURL>/connection/desc.xml</SCPDURL><controlURL>/connection/control</controlURL><eventSubURL>/connection/events</eventSubURL></service></serviceList></device></root>"@
}

/// Renders the device descriptor.
pub fn render_root_xml(name: &str, uuid: &str) -> (r: String)
    ensures
        r@ == spec_root_xml(name@, uuid@),
{
    let mut ser = crate::xml::Serializer::new();
    ser.append_str(
        "<?xml version=\"1.0\"?><root xmlns=\"urn:schemas-upnp-org:device-1-0\"><specVersion><major>1</major><minor>0</minor></specVersion><device><deviceType>urn:schemas-upnp-org:device:MediaServer:1</deviceType><friendlyName>",
    );
    ser.serialize_str(name);
    ser.append_str(
        "</friendlyName><manufacturer>rustymedia</manufacturer><modelName>rustymedia</modelName><UDN>",
    );
    ser.serialize_str(uuid);
    ser.append_str(
        "</UDN><serviceList><service><serviceType>urn:schemas-upnp-org:service:ContentDirectory:1</serviceType><serviceId>urn:upnp-org:serviceId:ContentDirectory</serviceId><SCPDURL>/content/desc.xml</SCPDURL><controlURL>/content/control</controlURL><eventSubURL>/content/events</eventSubURL></service><service><serviceType>urn:schemas-upnp-org:service:ConnectionManager:1</serviceType><serviceId>urn:upnp-org:serviceId:ConnectionManager</serviceId><SCPDURL>/connection/desc.xml</SCPDURL><controlURL>/connection/control</controlURL><eventSubURL>/connection/events</eventSubURL></service></serviceList></device></root>",
    );
    let r = ser.into_string();
    proof {
        assert(r@ =~= spec_root_xml(name@, uuid@));
    }
    r
}

/// The ConnectionManager service description served at
/// `/connection/desc.xml`.
pub fn connection_desc_xml() -> (r: &'static str)
    ensures
        r@
            == "<?xml version=\"1.0\"?><scpd xmlns=\"urn:schemas-upnp-org:service-1-0\"><specVersion><major>1</major><minor>0</minor></specVersion><actionList/><serviceStateTable/></scpd>"@,
{
    "<?xml version=\"1.0\"?><scpd xmlns=\"urn:schemas-upnp-org:service-1-0\"><specVersion><major>1</major><minor>0</minor></specVersion><actionList/><serviceStateTable/></scpd>"
}

/// The ContentDirectory service description served at `/content/desc.xml`.
pub fn content_desc_xml() -> (r: &'static str)
    ensures
        r@
            == "<?xml version=\"1.0\"?><scpd xmlns=\"urn:schemas-upnp-org:service-1-0\"><specVersion><major>1</major><minor>0</minor></specVersion><actionList><action><name>Browse</name></action></actionList><serviceStateTable/></scpd>"@,
{
    "<?xml version=\"1.0\"?><scpd xmlns=\"urn:schemas-upnp-org:service-1-0\"><specVersion><major>1</major><minor>0</minor></specVersion><actionList><action><name>Browse</name></action></actionList><serviceStateTable/></scpd>"
}

/// How one media request is answered: the status, the headers that carry
/// sizes, and the byte window the body reads.
#[derive(Clone, Copy, Debug)]
pub struct RangePlan {
    pub status: u16,
    pub content_range: Option<(u64, u64)>,
    pub total: Option<u64>,
    pub content_length: Option<u64>,
    pub read_start: u64,
    pub read_end: u64,
}

/// The answer to a byte-range request over a body of the given size: a
/// satisfiable range gets `206` with exactly the asked-for window clipped
/// to the available bytes; anything else streams the whole body under
/// `200`, with a length only once the total is known.
pub open spec fn spec_plan_range(range: Option<(u64, Option<u64>)>, size: crate::MediaSize) -> RangePlan {
    let sel = match range {
        None => None,
        Some((s, oe)) => if s < size.available {
            match oe {
                Some(e) => if e >= s {
                    Some((s, if e <= size.available - 1 {
                        e
                    } else {
                        (size.available - 1) as u64
                    }))
                } else {
                    None
                },
                None => Some((s, (size.available - 1) as u64)),
            }
        } else {
            None
        },
    };
    match sel {
        Some((s, e)) => RangePlan {
            status: 206,
            content_range: Some((s, e)),
            total: size.total,
            content_length: Some((e + 1 - s) as u64),
            read_start: s,
            read_end: (e + 1) as u64,
        },
        None => RangePlan {
            status: 200,
            content_range: None,
            total: size.total,
            content_length: size.total,
            read_start: 0,
            read_end: 0xffff_ffff_ffff_ffffu64,
        },
    }
}

/// Plans the answer to a media request.
pub fn plan_range(range: Option<(u64, Option<u64>)>, size: &crate::MediaSize) -> (r: RangePlan)
    ensures
        r == spec_plan_range(range, *size),
{
    let sel: Option<(u64, u64)> = match range {
        None => None,
        Some((s, oe)) => if s < size.available {
            match oe {
                Some(e) => if e >= s {
                    Some((s, if e <= size.available - 1 {
                        e
                    } else {
                        size.available - 1
                    }))
                } else {
                    None
                },
                None => Some((s, size.available - 1)),
            }
        } else {
            None
        },
    };
    match sel {
        Some((s, e)) => RangePlan {
            status: 206,
            content_range: Some((s, e)),
            total: size.total,
            content_length: Some(e + 1 - s),
            read_start: s,
            read_end: e + 1,
        },
        None => RangePlan {
            status: 200,
            content_range: None,
            total: size.total,
            content_length: size.total,
            read_start: 0,
            read_end: 0xffff_ffff_ffff_ffffu64,
        },
    }
}

} // verus!
