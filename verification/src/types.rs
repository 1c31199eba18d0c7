//! The SOAP and DIDL-Lite shapes of the ContentDirectory surface, and
//! their exact XML renderings.

use vstd::prelude::*;

verus! {

/// A SOAP envelope around one body.
#[derive(Debug)]
pub struct Envelope<B> {
    pub body: B,
}

/// The body of an incoming Browse request.
#[derive(Debug)]
pub struct Body {
    pub browse: Browse,
}

/// The body of a fault response.
#[derive(Debug)]
pub struct BodyFault {
    pub fault: Fault,
}

/// A SOAP fault: who is to blame and a human message.
#[derive(Debug)]
pub struct Fault {
    pub faultcode: String,
    pub faultstring: String,
}

/// The body of a Browse response.
#[derive(Debug)]
pub struct BodyBrowseResponse {
    pub browse_response: BrowseResponse,
}

/// A ContentDirectory Browse request.
#[derive(Debug)]
pub struct Browse {
    pub object_id: String,
    pub browse_flag: String,
    pub filter: String,
    pub starting_index: u64,
    pub requested_count: u64,
    pub sort_criteria: String,
}

/// A ContentDirectory Browse response.
#[derive(Debug)]
pub struct BrowseResponse {
    pub result: DidlResult,
    pub number_returned: u64,
    pub total_matches: u64,
    pub update_id: u64,
}

/// The DIDL-Lite document of a Browse response, carried as escaped text
/// inside the response's `Result` element.
#[derive(Debug)]
pub struct DidlResult(pub DidlLite);

/// A DIDL-Lite listing: the containers and items below one object.
#[derive(Debug)]
pub struct DidlLite {
    pub xmlns: String,
    pub xmlns_dc: String,
    pub xmlns_upnp: String,
    pub containers: Vec<Container>,
    pub items: Vec<Item>,
}

/// One browsable directory in a listing.
#[derive(Debug)]
pub struct Container {
    pub id: String,
    pub parent_id: String,
    pub restricted: bool,
    pub title: String,
    pub class: String,
}

/// One playable entry in a listing, with its stream resources.
#[derive(Debug)]
pub struct Item {
    pub id: String,
    pub parent_id: String,
    pub restricted: bool,
    pub res: Vec<Res>,
    pub title: String,
    pub class: String,
}

/// One stream resource of an item.
#[derive(Debug)]
pub struct Res {
    pub protocol_info: String,
    pub uri: crate::xml::Body<String>,
}

/// Artwork for an item.
#[derive(Debug)]
pub struct AlbumArtUri {
    pub profile_id: String,
    pub uri: crate::xml::Body<String>,
}

/// An attribute as it appears in the output.
pub open spec fn spec_attr(name: Seq<char>, text: Seq<char>) -> Seq<char> {
    " "@ + name + "=\""@ + text + "\""@
}

/// A child element holding plain text.
pub open spec fn spec_child(name: Seq<char>, text: Seq<char>) -> Seq<char> {
    "<"@ + name + ">"@ + text + "</"@ + name + ">"@
}

/// The XML of one container entry.
pub open spec fn spec_container_xml(c: Container) -> Seq<char> {
    "<"@ + "container"@ + spec_attr("id"@, crate::xml::xml_escaped(c.id@)) + spec_attr(
        "parentID"@,
        crate::xml::xml_escaped(c.parent_id@),
    ) + spec_attr("restricted"@, crate::xml::spec_bool_text(c.restricted)) + ">"@ + spec_child(
        "dc:title"@,
        crate::xml::xml_escaped(c.title@),
    ) + spec_child("upnp:class"@, crate::xml::xml_escaped(c.class@)) + "</"@ + "container"@ + ">"@
}

/// The XML of one stream resource.
pub open spec fn spec_res_xml(r: Res) -> Seq<char> {
    "<"@ + "res"@ + spec_attr("protocolInfo"@, crate::xml::xml_escaped(r.protocol_info@)) + ">"@
        + crate::xml::xml_escaped(r.uri.0@) + "</"@ + "res"@ + ">"@
}

/// The XML of a list of stream resources.
pub open spec fn spec_res_list_xml(s: Seq<Res>) -> Seq<char>
    decreases s.len(),
{
    if s.len() == 0 {
        Seq::empty()
    } else {
        spec_res_xml(s[0]) + spec_res_list_xml(s.drop_first())
    }
}

/// The XML of one item entry.
pub open spec fn spec_item_xml(it: Item) -> Seq<char> {
    "<"@ + "item"@ + spec_attr("id"@, crate::xml::xml_escaped(it.id@)) + spec_attr(
        "parentID"@,
        crate::xml::xml_escaped(it.parent_id@),
    ) + spec_attr("restricted"@, crate::xml::spec_bool_text(it.restricted)) + ">"@
        + spec_res_list_xml(it.res@) + spec_child("dc:title"@, crate::xml::xml_escaped(it.title@))
        + spec_child("upnp:class"@, crate::xml::xml_escaped(it.class@)) + "</"@ + "item"@ + ">"@
}

/// The XML of a list of containers.
pub open spec fn spec_container_list_xml(s: Seq<Container>) -> Seq<char>
    decreases s.len(),
{
    if s.len() == 0 {
        Seq::empty()
    } else {
        spec_container_xml(s[0]) + spec_container_list_xml(s.drop_first())
    }
}

/// The XML of a list of items.
pub open spec fn spec_item_list_xml(s: Seq<Item>) -> Seq<char>
    decreases s.len(),
{
    if s.len() == 0 {
        Seq::empty()
    } else {
        spec_item_xml(s[0]) + spec_item_list_xml(s.drop_first())
    }
}

/// The XML of a whole DIDL-Lite document.
pub open spec fn spec_didl_xml(d: DidlLite) -> Seq<char> {
    "<"@ + "DIDL-Lite"@ + spec_attr("xmlns"@, crate::xml::xml_escaped(d.xmlns@)) + spec_attr(
        "xmlns:dc"@,
        crate::xml::xml_escaped(d.xmlns_dc@),
    ) + spec_attr("xmlns:upnp"@, crate::xml::xml_escaped(d.xmlns_upnp@)) + ">"@
        + spec_container_list_xml(d.containers@) + spec_item_list_xml(d.items@) + "</"@ + "DIDL-Lite"@ + ">"@
}

impl Container {
    /// Writes this container entry.
    pub fn to_xml(&self, ser: &mut crate::xml::Serializer) -> (u: ())
        ensures
            final(ser).out_view() == old(ser).out_view() + spec_container_xml(*self),
    {
        let mut st = ser.serialize_struct("container");
        st.serialize_field(ser, "id", &crate::xml::XmlValue::Str(self.id.clone()));
        st.serialize_field(ser, "parentID", &crate::xml::XmlValue::Str(self.parent_id.clone()));
        st.serialize_field(ser, "restricted", &crate::xml::XmlValue::Bool(self.restricted));
        st.enter_body(ser);
        st.serialize_field(ser, "dc:title", &crate::xml::XmlValue::Str(self.title.clone()));
        st.serialize_field(ser, "upnp:class", &crate::xml::XmlValue::Str(self.class.clone()));
        st.end(ser);
        proof {
            assert(final(ser).out_view() =~= old(ser).out_view() + spec_container_xml(*self));
        }
    }
}

impl Res {
    /// Writes this resource entry.
    pub fn to_xml(&self, ser: &mut crate::xml::Serializer) -> (u: ())
        ensures
            final(ser).out_view() == old(ser).out_view() + spec_res_xml(*self),
    {
        let mut st = ser.serialize_struct("res");
        st.serialize_field(
            ser,
            "protocolInfo",
            &crate::xml::XmlValue::Str(self.protocol_info.clone()),
        );
        st.serialize_field_body(ser, "uri", &crate::xml::XmlValue::Str(self.uri.0.clone()));
        st.end(ser);
        proof {
            assert(final(ser).out_view() =~= old(ser).out_view() + spec_res_xml(*self));
        }
    }
}

impl Item {
    /// Writes this item entry with all its resources.
    pub fn to_xml(&self, ser: &mut crate::xml::Serializer) -> (u: ())
        ensures
            final(ser).out_view() == old(ser).out_view() + spec_item_xml(*self),
    {
        let mut st = ser.serialize_struct("item");
        st.serialize_field(ser, "id", &crate::xml::XmlValue::Str(self.id.clone()));
        st.serialize_field(ser, "parentID", &crate::xml::XmlValue::Str(self.parent_id.clone()));
        st.serialize_field(ser, "restricted", &crate::xml::XmlValue::Bool(self.restricted));
        st.enter_body(ser);
        let ghost mid = ser.out_view();
        let mut i: usize = 0;
        proof {
            assert(spec_res_list_xml(self.res@.take(0)) =~= Seq::<char>::empty());
            assert(mid + Seq::<char>::empty() =~= mid);
        }
        while i < self.res.len()
            invariant
                0 <= i <= self.res@.len(),
                ser.out_view() == mid + spec_res_list_xml(self.res@.take(i as int)),
            decreases self.res@.len() - i,
        {
            self.res[i].to_xml(ser);
            proof {
                lemma_res_list_snoc(self.res@, i as int);
            }
            i = i + 1;
        }
        proof {
            assert(self.res@.take(self.res@.len() as int) =~= self.res@);
        }
        st.serialize_field(ser, "dc:title", &crate::xml::XmlValue::Str(self.title.clone()));
        st.serialize_field(ser, "upnp:class", &crate::xml::XmlValue::Str(self.class.clone()));
        st.end(ser);
        proof {
            assert(final(ser).out_view() =~= old(ser).out_view() + spec_item_xml(*self));
        }
    }
}

proof fn lemma_res_list_snoc(s: Seq<Res>, i: int)
    requires
        0 <= i < s.len(),
    ensures
        spec_res_list_xml(s.take(i + 1)) == spec_res_list_xml(s.take(i)) + spec_res_xml(s[i]),
    decreases i,
{
    if i == 0 {
        assert(s.take(1)[0] == s[0]);
        assert(s.take(1).drop_first() =~= s.take(0));
        assert(spec_res_list_xml(s.take(0)) =~= Seq::<char>::empty());
        assert(spec_res_xml(s[0]) + Seq::<char>::empty() =~= spec_res_xml(s[0]));
        assert(Seq::<char>::empty() + spec_res_xml(s[0]) =~= spec_res_xml(s[0]));
    } else {
        lemma_res_list_snoc(s.drop_first(), i - 1);
        assert(s.take(i + 1)[0] == s[0]);
        assert(s.take(i + 1).drop_first() =~= s.drop_first().take(i));
        assert(s.take(i)[0] == s[0]);
        assert(s.take(i).drop_first() =~= s.drop_first().take(i - 1));
        assert(s.drop_first()[i - 1] == s[i]);
        assert(spec_res_xml(s[0]) + (spec_res_list_xml(s.drop_first().take(i - 1)) + spec_res_xml(
            s[i],
        )) =~= (spec_res_xml(s[0]) + spec_res_list_xml(s.drop_first().take(i - 1))) + spec_res_xml(
            s[i],
        ));
    }
}

proof fn lemma_container_list_snoc(s: Seq<Container>, i: int)
    requires
        0 <= i < s.len(),
    ensures
        spec_container_list_xml(s.take(i + 1)) == spec_container_list_xml(s.take(i))
            + spec_container_xml(s[i]),
    decreases i,
{
    if i == 0 {
        assert(s.take(1)[0] == s[0]);
        assert(s.take(1).drop_first() =~= s.take(0));
        assert(spec_container_list_xml(s.take(0)) =~= Seq::<char>::empty());
        assert(spec_container_xml(s[0]) + Seq::<char>::empty() =~= spec_container_xml(s[0]));
        assert(Seq::<char>::empty() + spec_container_xml(s[0]) =~= spec_container_xml(s[0]));
    } else {
        lemma_container_list_snoc(s.drop_first(), i - 1);
        assert(s.take(i + 1)[0] == s[0]);
        assert(s.take(i + 1).drop_first() =~= s.drop_first().take(i));
        assert(s.take(i)[0] == s[0]);
        assert(s.take(i).drop_first() =~= s.drop_first().take(i - 1));
        assert(s.drop_first()[i - 1] == s[i]);
        assert(spec_container_xml(s[0]) + (spec_container_list_xml(s.drop_first().take(i - 1))
            + spec_container_xml(s[i])) =~= (spec_container_xml(s[0]) + spec_container_list_xml(
            s.drop_first().take(i - 1),
        )) + spec_container_xml(s[i]));
    }
}

proof fn lemma_item_list_snoc(s: Seq<Item>, i: int)
    requires
        0 <= i < s.len(),
    ensures
        spec_item_list_xml(s.take(i + 1)) == spec_item_list_xml(s.take(i)) + spec_item_xml(s[i]),
    decreases i,
{
    if i == 0 {
        assert(s.take(1)[0] == s[0]);
        assert(s.take(1).drop_first() =~= s.take(0));
        assert(spec_item_list_xml(s.take(0)) =~= Seq::<char>::empty());
        assert(spec_item_xml(s[0]) + Seq::<char>::empty() =~= spec_item_xml(s[0]));
        assert(Seq::<char>::empty() + spec_item_xml(s[0]) =~= spec_item_xml(s[0]));
    } else {
        lemma_item_list_snoc(s.drop_first(), i - 1);
        assert(s.take(i + 1)[0] == s[0]);
        assert(s.take(i + 1).drop_first() =~= s.drop_first().take(i));
        assert(s.take(i)[0] == s[0]);
        assert(s.take(i).drop_first() =~= s.drop_first().take(i - 1));
        assert(s.drop_first()[i - 1] == s[i]);
        assert(spec_item_xml(s[0]) + (spec_item_list_xml(s.drop_first().take(i - 1))
            + spec_item_xml(s[i])) =~= (spec_item_xml(s[0]) + spec_item_list_xml(
            s.drop_first().take(i - 1),
        )) + spec_item_xml(s[i]));
    }
}

impl DidlLite {
    /// Writes the whole listing document.
    #[verifier::rlimit(60)]
    pub fn to_xml(&self, ser: &mut crate::xml::Serializer) -> (u: ())
        ensures
            final(ser).out_view() == old(ser).out_view() + spec_didl_xml(*self),
    {
        let mut st = ser.serialize_struct("DIDL-Lite");
        st.serialize_field(ser, "xmlns", &crate::xml::XmlValue::Str(self.xmlns.clone()));
        st.serialize_field(ser, "xmlns:dc", &crate::xml::XmlValue::Str(self.xmlns_dc.clone()));
        st.serialize_field(
            ser,
            "xmlns:upnp",
            &crate::xml::XmlValue::Str(self.xmlns_upnp.clone()),
        );
        st.enter_body(ser);
        let ghost mid = ser.out_view();
        let mut i: usize = 0;
        proof {
            assert(spec_container_list_xml(self.containers@.take(0)) =~= Seq::<char>::empty());
            assert(mid + Seq::<char>::empty() =~= mid);
        }
        while i < self.containers.len()
            invariant
                0 <= i <= self.containers@.len(),
                ser.out_view() == mid + spec_container_list_xml(self.containers@.take(i as int)),
            decreases self.containers@.len() - i,
        {
            self.containers[i].to_xml(ser);
            proof {
                lemma_container_list_snoc(self.containers@, i as int);
            }
            i = i + 1;
        }
        proof {
            assert(self.containers@.take(self.containers@.len() as int) =~= self.containers@);
        }
        let ghost mid2 = ser.out_view();
        let mut j: usize = 0;
        proof {
            assert(spec_item_list_xml(self.items@.take(0)) =~= Seq::<char>::empty());
            assert(mid2 + Seq::<char>::empty() =~= mid2);
        }
        while j < self.items.len()
            invariant
                0 <= j <= self.items@.len(),
                ser.out_view() == mid2 + spec_item_list_xml(self.items@.take(j as int)),
            decreases self.items@.len() - j,
        {
            self.items[j].to_xml(ser);
            proof {
                lemma_item_list_snoc(self.items@, j as int);
            }
            j = j + 1;
        }
        proof {
            assert(self.items@.take(self.items@.len() as int) =~= self.items@);
        }
        st.end(ser);
        proof {
            assert(final(ser).out_view() =~= old(ser).out_view() + spec_didl_xml(*self));
        }
    }
}

} // verus!
