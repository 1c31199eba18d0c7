//! A small XML writer: structs become elements, plain fields become
//! attributes until the element body is opened, then children.

use vstd::prelude::*;

verus! {

/// Marks a value that is written as the bare text body of its element
/// instead of a named child.
#[derive(Debug)]
pub struct Body<T>(pub T);

/// How one character appears in the output: the three characters XML
/// cannot hold verbatim are replaced by entities.
pub open spec fn escape_char_spec(c: char) -> Seq<char> {
    if c == '"' {
        "&quot;"@
    } else if c == '<' {
        "&lt;"@
    } else if c == '&' {
        "&amp;"@
    } else {
        seq![c]
    }
}

/// A text with each character escaped.
pub open spec fn xml_escaped(s: Seq<char>) -> Seq<char>
    decreases s.len(),
{
    if s.len() == 0 {
        Seq::empty()
    } else {
        escape_char_spec(s[0]) + xml_escaped(s.drop_first())
    }
}

proof fn lemma_xml_escaped_single(c: char)
    ensures
        xml_escaped(seq![c]) == escape_char_spec(c),
{
    let s = seq![c];
    assert(s.drop_first() =~= Seq::<char>::empty());
    assert(s[0] == c);
    assert(xml_escaped(s.drop_first()) == Seq::<char>::empty());
    assert(escape_char_spec(c) + Seq::<char>::empty() =~= escape_char_spec(c));
}

proof fn lemma_xml_escaped_append(a: Seq<char>, b: Seq<char>)
    ensures
        xml_escaped(a + b) == xml_escaped(a) + xml_escaped(b),
    decreases a.len(),
{
    if a.len() == 0 {
        assert(a + b =~= b);
        assert(xml_escaped(a) + xml_escaped(b) =~= xml_escaped(b));
    } else {
        lemma_xml_escaped_append(a.drop_first(), b);
        assert((a + b).drop_first() =~= a.drop_first() + b);
        assert((a + b)[0] == a[0]);
        assert(escape_char_spec(a[0]) + (xml_escaped(a.drop_first()) + xml_escaped(b))
            =~= (escape_char_spec(a[0]) + xml_escaped(a.drop_first())) + xml_escaped(b));
    }
}

/// The decimal digit character of a value below ten.
pub open spec fn digit_char(d: nat) -> char {
    if d == 0 {
        '0'
    } else if d == 1 {
        '1'
    } else if d == 2 {
        '2'
    } else if d == 3 {
        '3'
    } else if d == 4 {
        '4'
    } else if d == 5 {
        '5'
    } else if d == 6 {
        '6'
    } else if d == 7 {
        '7'
    } else if d == 8 {
        '8'
    } else {
        '9'
    }
}

/// The decimal text of an unsigned value.
pub open spec fn spec_dec_u64(n: nat) -> Seq<char>
    decreases n,
{
    if n < 10 {
        seq![digit_char(n)]
    } else {
        spec_dec_u64(n / 10) + seq![digit_char(n % 10)]
    }
}

/// The decimal text of a signed value.
pub open spec fn spec_dec_i64(n: int) -> Seq<char> {
    if n < 0 {
        seq!['-'] + spec_dec_u64((-n) as nat)
    } else {
        spec_dec_u64(n as nat)
    }
}

/// The text of a boolean.
pub open spec fn spec_bool_text(b: bool) -> Seq<char> {
    if b {
        "true"@
    } else {
        "false"@
    }
}

/// A plain value an element attribute or child can hold.
#[derive(Debug)]
pub enum XmlValue {
    Str(String),
    UInt(u64),
    Int(i64),
    Bool(bool),
}

/// The output text of a value: strings are escaped, numbers and booleans
/// written in their usual form.
pub open spec fn spec_value_text(v: XmlValue) -> Seq<char> {
    match v {
        XmlValue::Str(s) => xml_escaped(s@),
        XmlValue::UInt(n) => spec_dec_u64(n as nat),
        XmlValue::Int(n) => spec_dec_i64(n as int),
        XmlValue::Bool(b) => spec_bool_text(b),
    }
}

/// Accepts every element name; kept as the single place where a name
/// check would live.
pub fn check_valid_name(_name: &str) -> (r: bool)
    ensures
        r,
{
    true
}

/// Accepts every attribute name; kept as the single place where an
/// attribute check would live.
pub fn check_valid_attr(_name: &str) -> (r: bool)
    ensures
        r,
{
    true
}

/// Writes XML into an owned text buffer.
pub struct Serializer {
    out: String,
}

impl Serializer {
    /// The text written so far.
    pub closed spec fn out_view(self) -> Seq<char> {
        self.out@
    }

    /// A writer with an empty buffer.
    pub fn new() -> (r: Self)
        ensures
            r.out_view() == Seq::<char>::empty(),
    {
        Serializer { out: String::new() }
    }

    /// Hands the finished text out.
    pub fn into_string(self) -> (r: String)
        ensures
            r@ == self.out_view(),
    {
        self.out
    }

    fn digit_str(d: u64) -> (r: &'static str)
        requires
            d < 10,
        ensures
            r@ == seq![digit_char(d as nat)],
    {
        proof {
            reveal_strlit("0");
            reveal_strlit("1");
            reveal_strlit("2");
            reveal_strlit("3");
            reveal_strlit("4");
            reveal_strlit("5");
            reveal_strlit("6");
            reveal_strlit("7");
            reveal_strlit("8");
            reveal_strlit("9");
        }
        if d == 0 {
            "0"
        } else if d == 1 {
            "1"
        } else if d == 2 {
            "2"
        } else if d == 3 {
            "3"
        } else if d == 4 {
            "4"
        } else if d == 5 {
            "5"
        } else if d == 6 {
            "6"
        } else if d == 7 {
            "7"
        } else if d == 8 {
            "8"
        } else {
            "9"
        }
    }

    /// Writes an unsigned value in decimal.
    pub fn serialize_u64(&mut self, n: u64) -> (u: ())
        ensures
            final(self).out_view() == old(self).out_view() + spec_dec_u64(n as nat),
        decreases n,
    {
        if n >= 10 {
            self.serialize_u64(n / 10);
        }
        let d = Self::digit_str(n % 10);
        self.out.append(d);
    }

    /// Writes a signed value in decimal.
    pub fn serialize_i64(&mut self, n: i64) -> (u: ())
        ensures
            final(self).out_view() == old(self).out_view() + spec_dec_i64(n as int),
    {
        if n < 0 {
            proof {
                reveal_strlit("-");
            }
            self.out.append("-");
            let m: u64 = (-(n as i128)) as u64;
            self.serialize_u64(m);
            proof {
                assert(final(self).out_view() =~= old(self).out_view() + spec_dec_i64(n as int));
            }
        } else {
            self.serialize_u64(n as u64);
        }
    }

    /// Writes a boolean as `true` or `false`.
    pub fn serialize_bool(&mut self, b: bool) -> (u: ())
        ensures
            final(self).out_view() == old(self).out_view() + spec_bool_text(b),
    {
        if b {
            self.out.append("true");
        } else {
            self.out.append("false");
        }
    }

    /// Writes one character, escaped where XML requires it.
    pub fn serialize_char(&mut self, c: char) -> (u: ())
        ensures
            final(self).out_view() == old(self).out_view() + escape_char_spec(c),
    {
        if c == '"' {
            self.out.append("&quot;");
        } else if c == '<' {
            self.out.append("&lt;");
        } else if c == '&' {
            self.out.append("&amp;");
        } else {
            self.out.push(c);
            proof {
                assert(old(self).out_view().push(c) =~= old(self).out_view() + seq![c]);
            }
        }
    }

    /// Writes a text with every character escaped.
    pub fn serialize_str(&mut self, s: &str) -> (u: ())
        ensures
            final(self).out_view() == old(self).out_view() + xml_escaped(s@),
    {
        let chars = crate::chars_of(s);
        let ghost orig = self.out@;
        let mut i: usize = 0;
        proof {
            assert(s@.take(0) =~= Seq::<char>::empty());
        }
        while i < chars.len()
            invariant
                0 <= i <= chars@.len(),
                chars@ == s@,
                self.out@ == orig + xml_escaped(s@.take(i as int)),
            decreases chars@.len() - i,
        {
            self.serialize_char(chars[i]);
            proof {
                lemma_xml_escaped_append(s@.take(i as int), seq![s@[i as int]]);
                assert(s@.take(i + 1) =~= s@.take(i as int) + seq![s@[i as int]]);
                lemma_xml_escaped_single(s@[i as int]);
            }
            i = i + 1;
        }
        proof {
            assert(s@.take(chars@.len() as int) =~= s@);
        }
    }

    /// Writes a value in its text form.
    pub fn serialize_value(&mut self, v: &XmlValue) -> (u: ())
        ensures
            final(self).out_view() == old(self).out_view() + spec_value_text(*v),
    {
        match v {
            XmlValue::Str(s) => self.serialize_str(s.as_str()),
            XmlValue::UInt(n) => self.serialize_u64(*n),
            XmlValue::Int(n) => self.serialize_i64(*n),
            XmlValue::Bool(b) => self.serialize_bool(*b),
        }
    }

    /// Writes an element with no attributes and no body.
    pub fn serialize_unit_struct(&mut self, name: &str) -> (u: ())
        ensures
            final(self).out_view() == old(self).out_view() + "<"@ + name@ + "/>"@,
    {
        self.out.append("<");
        self.out.append(name);
        self.out.append("/>");
    }

    /// Opens an element: its attributes and body follow through the
    /// returned handle.
    pub fn serialize_struct(&mut self, name: &str) -> (st: Struct)
        ensures
            final(self).out_view() == old(self).out_view() + "<"@ + name@,
            st.name@ == name@,
            !st.body,
    {
        self.out.append("<");
        self.out.append(name);
        Struct { name: String::from_str(name), body: false }
    }
}

/// Relies on String::push: appends the one character.
pub assume_specification[ String::push ](s: &mut String, c: char)
    ensures
        final(s)@ == old(s)@.push(c),
;

/// An element that has been opened and not yet closed. Until its body is
/// entered, plain fields become attributes; afterwards they become child
/// elements.
pub struct Struct {
    pub name: String,
    pub body: bool,
}

impl Struct {
    /// Closes the attribute list and enters the element's body.
    pub fn enter_body(&mut self, ser: &mut Serializer) -> (u: ())
        ensures
            final(self).name == old(self).name,
            final(self).body,
            final(ser).out_view() == old(ser).out_view() + if old(self).body {
                Seq::<char>::empty()
            } else {
                ">"@
            },
    {
        if !self.body {
            self.body = true;
            ser.append_str(">");
        } else {
            proof {
                assert(old(ser).out_view() + Seq::<char>::empty() =~= old(ser).out_view());
            }
        }
    }

    /// Writes one plain field: an attribute while the body is closed, a
    /// child element once it is open.
    pub fn serialize_field(&mut self, ser: &mut Serializer, key: &str, value: &XmlValue) -> (u:
        ())
        ensures
            final(self).name == old(self).name,
            final(self).body == old(self).body,
            final(ser).out_view() == old(ser).out_view() + if old(self).body {
                "<"@ + key@ + ">"@ + spec_value_text(*value) + "</"@ + key@ + ">"@
            } else {
                " "@ + key@ + "=\""@ + spec_value_text(*value) + "\""@
            },
    {
        let sub = SubSerializer { name: String::from_str(key) };
        sub.attr(self, ser, value);
    }

    /// Writes a field marked [`Body`]: with the body still closed it
    /// becomes the element's bare text; otherwise a named child.
    pub fn serialize_field_body(&mut self, ser: &mut Serializer, key: &str, value: &XmlValue) -> (
        u: ())
        ensures
            final(self).name == old(self).name,
            final(self).body,
            final(ser).out_view() == old(ser).out_view() + if old(self).body {
                "<"@ + key@ + ">"@ + spec_value_text(*value) + "</"@ + key@ + ">"@
            } else {
                ">"@ + spec_value_text(*value)
            },
    {
        if !self.body {
            self.enter_body(ser);
            ser.serialize_value(value);
            proof {
                assert(final(ser).out_view() =~= old(ser).out_view() + (">"@ + spec_value_text(
                    *value,
                )));
            }
        } else {
            let sub = SubSerializer { name: String::from_str(key) };
            sub.child(self, ser, value);
        }
    }

    /// Opens a list-valued field: each element is written through the
    /// returned handle under this field's name.
    pub fn serialize_seq(&mut self, ser: &mut Serializer, key: &str) -> (r: XmlSeq)
        ensures
            final(self).name == old(self).name,
            final(self).body,
            final(ser).out_view() == old(ser).out_view() + if old(self).body {
                Seq::<char>::empty()
            } else {
                ">"@
            },
            r.name@ == key@,
    {
        self.enter_body(ser);
        XmlSeq { name: String::from_str(key) }
    }

    /// Opens a struct-valued field: the child element carries the inner
    /// struct's own name.
    pub fn serialize_sub_struct(&mut self, ser: &mut Serializer, name: &str) -> (st: Struct)
        ensures
            final(self).name == old(self).name,
            final(self).body,
            final(ser).out_view() == old(ser).out_view() + (if old(self).body {
                Seq::<char>::empty()
            } else {
                ">"@
            }) + "<"@ + name@,
            st.name@ == name@,
            !st.body,
    {
        self.enter_body(ser);
        let st = ser.serialize_struct(name);
        st
    }

    /// Closes the element: `/>` when the body never opened, a closing tag
    /// otherwise.
    pub fn end(self, ser: &mut Serializer) -> (u: ())
        ensures
            final(ser).out_view() == old(ser).out_view() + if self.body {
                "</"@ + self.name@ + ">"@
            } else {
                "/>"@
            },
    {
        if self.body {
            ser.append_str("</");
            ser.append_str(self.name.as_str());
            ser.append_str(">");
        } else {
            ser.append_str("/>");
        }
    }
}

impl Serializer {
    /// Writes markup verbatim, unescaped.
    pub fn append_str(&mut self, s: &str) -> (u: ())
        ensures
            final(self).out_view() == old(self).out_view() + s@,
    {
        self.out.append(s);
    }
}

/// Writes the value of one field, deciding between the attribute and the
/// child form.
pub struct SubSerializer {
    pub name: String,
}

impl SubSerializer {
    /// Writes the field as an attribute while the parent's body is still
    /// closed, and as a child element afterwards.
    pub fn attr(&self, st: &mut Struct, ser: &mut Serializer, value: &XmlValue) -> (u: ())
        ensures
            final(st).name == old(st).name,
            final(st).body == old(st).body,
            final(ser).out_view() == old(ser).out_view() + if old(st).body {
                "<"@ + self.name@ + ">"@ + spec_value_text(*value) + "</"@ + self.name@ + ">"@
            } else {
                " "@ + self.name@ + "=\""@ + spec_value_text(*value) + "\""@
            },
    {
        if st.body {
            self.child(st, ser, value);
        } else {
            ser.append_str(" ");
            ser.append_str(self.name.as_str());
            ser.append_str("=\"");
            ser.serialize_value(value);
            ser.append_str("\"");
        }
    }

    /// Writes the field as a child element, opening the parent's body
    /// first when needed.
    pub fn child(&self, st: &mut Struct, ser: &mut Serializer, value: &XmlValue) -> (u: ())
        requires
            old(st).body,
        ensures
            final(st).name == old(st).name,
            final(st).body,
            final(ser).out_view() == old(ser).out_view() + "<"@ + self.name@ + ">"@
                + spec_value_text(*value) + "</"@ + self.name@ + ">"@,
    {
        st.enter_body(ser);
        ser.append_str("<");
        ser.append_str(self.name.as_str());
        ser.append_str(">");
        ser.serialize_value(value);
        ser.append_str("</");
        ser.append_str(self.name.as_str());
        ser.append_str(">");
        proof {
            assert(old(ser).out_view() + Seq::<char>::empty() =~= old(ser).out_view());
        }
    }
}

/// A list-valued field being written: one element per member, each under
/// the field's name.
pub struct XmlSeq {
    pub name: String,
}

impl XmlSeq {
    /// Writes one plain member as `<name>value</name>`.
    pub fn serialize_element(&self, ser: &mut Serializer, value: &XmlValue) -> (u: ())
        ensures
            final(ser).out_view() == old(ser).out_view() + "<"@ + self.name@ + ">"@
                + spec_value_text(*value) + "</"@ + self.name@ + ">"@,
    {
        let sub = SeqSubSerializer { name: self.name.clone() };
        sub.wrapped(ser, value);
    }

    /// Opens one struct member, which carries its own element name.
    pub fn serialize_struct_element(&self, ser: &mut Serializer, name: &str) -> (st: Struct)
        ensures
            final(ser).out_view() == old(ser).out_view() + "<"@ + name@,
            st.name@ == name@,
            !st.body,
    {
        ser.serialize_struct(name)
    }

    /// Closing a list writes nothing.
    pub fn end(self, ser: &mut Serializer) -> (u: ())
        ensures
            final(ser).out_view() == old(ser).out_view(),
    {
    }
}

/// Writes one member of a list-valued field.
pub struct SeqSubSerializer {
    pub name: String,
}

impl SeqSubSerializer {
    /// Wraps one member's text in this field's element name.
    pub fn wrapped(&self, ser: &mut Serializer, value: &XmlValue) -> (u: ())
        ensures
            final(ser).out_view() == old(ser).out_view() + "<"@ + self.name@ + ">"@
                + spec_value_text(*value) + "</"@ + self.name@ + ">"@,
    {
        ser.append_str("<");
        ser.append_str(self.name.as_str());
        ser.append_str(">");
        ser.serialize_value(value);
        ser.append_str("</");
        ser.append_str(self.name.as_str());
        ser.append_str(">");
    }
}

} // verus!
