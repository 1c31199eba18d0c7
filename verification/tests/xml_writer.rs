use rustymedia::xml::{Serializer, XmlValue};

#[test]
fn test_simple() {
    let mut ser = Serializer::new();
    let mut st = ser.serialize_struct("Simple");
    st.serialize_field(&mut ser, "a", &XmlValue::Str("foo".to_string()));
    st.serialize_field(&mut ser, "b", &XmlValue::Int(17));
    st.serialize_field_body(&mut ser, "val", &XmlValue::Str("contents".to_string()));
    st.end(&mut ser);
    assert_eq!(ser.into_string(), r#"<Simple a="foo" b="17">contents</Simple>"#);
}

#[test]
fn test_new_type() {
    let mut ser = Serializer::new();
    let mut st = ser.serialize_struct("NoAttr");
    // A plain wrapped value under a field becomes a named child.
    st.enter_body(&mut ser);
    st.serialize_field(&mut ser, "new_type", &XmlValue::Str("foobar".to_string()));
    st.end(&mut ser);
    assert_eq!(ser.into_string(), r#"<NoAttr><new_type>foobar</new_type></NoAttr>"#);
}

#[test]
fn test_seq() {
    let mut ser = Serializer::new();
    let mut st = ser.serialize_struct("Seq");
    let a: Vec<u32> = vec![];
    let n: Vec<u32> = vec![1, 2, 3];
    let sa = st.serialize_seq(&mut ser, "a");
    for v in &a {
        sa.serialize_element(&mut ser, &XmlValue::UInt(*v as u64));
    }
    sa.end(&mut ser);
    let sn = st.serialize_seq(&mut ser, "n");
    for v in &n {
        sn.serialize_element(&mut ser, &XmlValue::UInt(*v as u64));
    }
    sn.end(&mut ser);
    st.end(&mut ser);
    assert_eq!(ser.into_string(), r#"<Seq><n>1</n><n>2</n><n>3</n></Seq>"#);
}

fn write_simple(ser: &mut Serializer, seq: &rustymedia::xml::XmlSeq, a: &str, b: i64, val: i64) {
    let mut st = seq.serialize_struct_element(ser, "Simple");
    st.serialize_field(ser, "a", &XmlValue::Str(a.to_string()));
    st.serialize_field(ser, "b", &XmlValue::Int(b));
    st.serialize_field_body(ser, "val", &XmlValue::Int(val));
    st.end(ser);
}

#[test]
fn test_seq_type() {
    let mut ser = Serializer::new();
    let mut st = ser.serialize_struct("SeqNT");
    let sa = st.serialize_seq(&mut ser, "a");
    sa.end(&mut ser);
    let sn = st.serialize_seq(&mut ser, "n");
    write_simple(&mut ser, &sn, "foo", 42, 3);
    write_simple(&mut ser, &sn, "bar", 2, 14);
    sn.end(&mut ser);
    st.end(&mut ser);
    assert_eq!(
        ser.into_string(),
        r#"<SeqNT><Simple a="foo" b="42">3</Simple><Simple a="bar" b="2">14</Simple></SeqNT>"#
    );
}

#[test]
fn test_complex() {
    let mut ser = Serializer::new();
    let mut outer = ser.serialize_struct("Complex");
    outer.serialize_field(&mut ser, "a", &XmlValue::Str("a b c".to_string()));
    let mut b = outer.serialize_sub_struct(&mut ser, "Simple");
    b.serialize_field(
        &mut ser,
        "a",
        &XmlValue::Str(r#"<script>alert("Hi & Bye!")</script>"#.to_string()),
    );
    b.serialize_field(&mut ser, "b", &XmlValue::Int(42));
    b.enter_body(&mut ser);
    let mut inner = b.serialize_sub_struct(&mut ser, "Simple");
    inner.serialize_field(&mut ser, "a", &XmlValue::Str("such nesting".to_string()));
    inner.serialize_field(&mut ser, "b", &XmlValue::Int(9001));
    inner.serialize_field_body(&mut ser, "val", &XmlValue::Int(3918));
    inner.end(&mut ser);
    b.end(&mut ser);
    outer.serialize_field(&mut ser, "c", &XmlValue::Str("finally".to_string()));
    outer.end(&mut ser);
    assert_eq!(
        ser.into_string(),
        r#"<Complex a="a b c"><Simple a="&lt;script>alert(&quot;Hi &amp; Bye!&quot;)&lt;/script>" b="42"><Simple a="such nesting" b="9001">3918</Simple></Simple><c>finally</c></Complex>"#
    );
}

#[test]
fn test_escaping_and_numbers() {
    let mut ser = Serializer::new();
    ser.serialize_str(r#"a<b&c"d>e"#);
    ser.serialize_u64(0);
    ser.serialize_u64(18446744073709551615);
    ser.serialize_i64(-42);
    ser.serialize_bool(true);
    assert_eq!(
        ser.into_string(),
        "a&lt;b&amp;c&quot;d>e018446744073709551615-42true"
    );
}
