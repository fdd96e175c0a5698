use plctag::derive::{
    AttrError, Codec, Context, Field, Lit, Meta, Nested, field_codecs, get_fields, get_offset_attr,
    get_tag_attr, offset_fields,
};

fn nv(key: &str, lit: Lit) -> Nested {
    Nested::NameValue(key.to_string(), lit)
}

fn list(items: Vec<Nested>) -> Meta {
    Meta::List(items)
}

const DECODE: Context = Context { is_encode: false };
const ENCODE: Context = Context { is_encode: true };

#[test]
fn tag_attr_offset() {
    let a = get_tag_attr(&list(vec![nv("offset", Lit::Int(Some(4)))]), &DECODE).unwrap();
    assert_eq!(a.offset, Some(4));
    assert_eq!(a.size, None);
    assert_eq!(a.decode_fn, None);
}

#[test]
fn tag_attr_functions() {
    let m = list(vec![
        nv("encode_fn", Lit::Str(Some("my_encode".to_string()))),
        nv("decode_fn", Lit::Str(Some("my_decode".to_string()))),
        nv("size", Lit::Int(Some(4))),
    ]);
    let a = get_tag_attr(&m, &ENCODE).unwrap();
    assert_eq!(a.encode_fn.as_deref(), Some("my_encode"));
    assert_eq!(a.decode_fn.as_deref(), Some("my_decode"));
    assert_eq!(a.size, Some(4));
}

#[test]
fn tag_attr_errors() {
    assert_eq!(get_tag_attr(&Meta::Other, &DECODE), Err(AttrError::BadUsage));
    assert_eq!(get_tag_attr(&list(vec![Nested::Other]), &DECODE), Err(AttrError::ExpectedNameValue));
    let m = list(vec![nv("offset", Lit::Int(Some(1))), nv("offset", Lit::Int(Some(2)))]);
    assert_eq!(get_tag_attr(&m, &DECODE), Err(AttrError::RedundantOffset));
    let m = list(vec![nv("offset", Lit::Str(Some("x".to_string())))]);
    assert_eq!(get_tag_attr(&m, &DECODE), Err(AttrError::ExpectedInt));
    let m = list(vec![nv("decode_fn", Lit::Int(Some(1)))]);
    assert_eq!(get_tag_attr(&m, &DECODE), Err(AttrError::ExpectedStr));
    let m = list(vec![nv("offset", Lit::Int(None))]);
    assert_eq!(get_tag_attr(&m, &DECODE), Err(AttrError::BadLiteral));
    let m = list(vec![nv("width", Lit::Int(Some(1))), nv("offset", Lit::Other)]);
    assert_eq!(get_tag_attr(&m, &DECODE), Err(AttrError::UnknownAttr));
    let m = list(vec![nv("decode_fn", Lit::Str(Some("f".to_string())))]);
    assert_eq!(get_tag_attr(&m, &ENCODE), Err(AttrError::EncodeNeedsOffsetOrFn));
    let m = list(vec![nv("size", Lit::Int(Some(2)))]);
    assert_eq!(get_tag_attr(&m, &DECODE), Err(AttrError::DecodeNeedsOffsetOrFn));
}

#[test]
fn fields_and_codecs() {
    let fields = vec![
        Field { name: "a".to_string(), attrs: vec![list(vec![nv("offset", Lit::Int(Some(0)))])] },
        Field {
            name: "b".to_string(),
            attrs: vec![list(vec![
                nv("encode_fn", Lit::Str(Some("my_encode".to_string()))),
                nv("decode_fn", Lit::Str(Some("my_decode".to_string()))),
            ])],
        },
    ];
    let items = get_fields(&fields, &DECODE).unwrap();
    assert_eq!(items.len(), 2);
    let codecs = field_codecs(&items, &DECODE);
    assert_eq!(codecs[0], ("a".to_string(), Codec::Offset(0)));
    assert_eq!(codecs[1], ("b".to_string(), Codec::Call("my_decode".to_string())));
    let twice = vec![Field {
        name: "c".to_string(),
        attrs: vec![list(vec![nv("offset", Lit::Int(Some(0)))]), list(vec![])],
    }];
    assert_eq!(get_fields(&twice, &DECODE), Err(AttrError::RedundantTagAttr));
}

#[test]
fn offset_attr() {
    let one = |n: Nested| list(vec![n]);
    assert_eq!(get_offset_attr(&one(Nested::Lit(Lit::Int(Some(8))))), Ok(8));
    assert_eq!(get_offset_attr(&one(Nested::Lit(Lit::Int(None)))), Err(AttrError::BadLiteral));
    assert_eq!(get_offset_attr(&one(Nested::Lit(Lit::Other))), Err(AttrError::ExpectedInt));
    // a name-value item or anything else is no offset
    assert_eq!(get_offset_attr(&one(Nested::Other)), Err(AttrError::SingleOffsetOnly));
    assert_eq!(get_offset_attr(&one(nv("offset", Lit::Int(Some(8))))), Err(AttrError::SingleOffsetOnly));
    assert_eq!(get_offset_attr(&list(vec![])), Err(AttrError::SingleOffsetOnly));
    let two = list(vec![Nested::Lit(Lit::Int(Some(1))), Nested::Lit(Lit::Int(Some(2)))]);
    assert_eq!(get_offset_attr(&two), Err(AttrError::SingleOffsetOnly));
    assert_eq!(get_offset_attr(&Meta::Other), Err(AttrError::ExpectedList));
}

#[test]
fn offset_fields_in_order() {
    let at = |o: u32| list(vec![Nested::Lit(Lit::Int(Some(o)))]);
    let fields = vec![
        Field { name: "a".to_string(), attrs: vec![at(0)] },
        Field { name: "skip".to_string(), attrs: vec![] },
        Field { name: "b".to_string(), attrs: vec![at(4)] },
    ];
    assert_eq!(offset_fields(&fields), Ok(vec![("a".to_string(), 0), ("b".to_string(), 4)]));
    let twice = vec![Field { name: "c".to_string(), attrs: vec![at(0), at(2)] }];
    assert_eq!(offset_fields(&twice), Err(AttrError::RedundantOffsetAttr));
    let bad = vec![
        Field { name: "d".to_string(), attrs: vec![Meta::Other] },
        Field { name: "e".to_string(), attrs: vec![list(vec![])] },
    ];
    assert_eq!(offset_fields(&bad), Err(AttrError::ExpectedList));
}

#[test]
fn fields_error_before_field_without_attribute() {
    let fields = vec![
        Field { name: "a".to_string(), attrs: vec![Meta::Other] },
        Field { name: "b".to_string(), attrs: vec![] },
    ];
    assert_eq!(get_fields(&fields, &DECODE), Err(AttrError::BadUsage));
}
