//! The rules of the `tag(..)` field attributes that the value derives read,
//! over the attributes' contents as plain values.

use vstd::prelude::*;
use vstd::string::StringExecFns;

verus! {

/// A literal of an attribute, as the attribute parser read it.
#[derive(Debug, Clone, PartialEq, Eq)]
pub enum Lit {
    /// an integer literal, with its value when it reads as a `u32`
    Int(Option<u32>),
    /// a string literal, with the path it holds when it reads as one
    Str(Option<String>),
    /// any other literal
    Other,
}

/// One item in the list of a `tag(..)` attribute.
#[derive(Debug, Clone, PartialEq, Eq)]
pub enum Nested {
    /// `name = literal`
    NameValue(String, Lit),
    /// a literal alone
    Lit(Lit),
    /// anything else
    Other,
}

/// The form of an attribute.
#[derive(Debug, Clone, PartialEq, Eq)]
pub enum Meta {
    /// `tag(..)`: a list of items
    List(Vec<Nested>),
    /// any other form
    Other,
}

/// Why the attributes of a field are refused.
#[derive(Debug, Clone, Copy, PartialEq, Eq, Structural)]
pub enum AttrError {
    /// the attribute is not a list, "bad usage, please refer to tag attribute"
    BadUsage,
    /// an item is not `name = value`
    ExpectedNameValue,
    /// "redundant definition for offset"
    RedundantOffset,
    /// "redundant definition for size"
    RedundantSize,
    /// "redundant definition for encode_fn"
    RedundantEncodeFn,
    /// "redundant definition for decode_fn"
    RedundantDecodeFn,
    /// "expected int literal"
    ExpectedInt,
    /// "expected Str literal"
    ExpectedStr,
    /// the literal does not read as a `u32` or a path
    BadLiteral,
    /// "unknown tag attribute"
    UnknownAttr,
    /// "at least one of tag attribute `offset`, `encode_fn` is required"
    EncodeNeedsOffsetOrFn,
    /// "at least one of tag attribute `offset`, `decode_fn` is required"
    DecodeNeedsOffsetOrFn,
    /// "redundant `tag()` attribute"
    RedundantTagAttr,
    /// "currently only a single tag attribute is supported"
    SingleOffsetOnly,
    /// "expected a list-style attribute"
    ExpectedList,
    /// "redundant `offset()` attribute"
    RedundantOffsetAttr,
}

/// What the `tag(..)` attribute of a field says.
#[derive(Debug, Clone, PartialEq, Eq)]
pub struct TagAttr {
    /// byte offset of the field
    pub offset: Option<u32>,
    /// size of the field
    pub size: Option<u32>,
    /// path of the function that encodes the field
    pub encode_fn: Option<String>,
    /// path of the function that decodes the field
    pub decode_fn: Option<String>,
}

/// Whether the derive encodes (else decodes).
#[derive(Debug, Clone, Copy, PartialEq, Eq, Structural)]
pub struct Context {
    /// the derive encodes
    pub is_encode: bool,
}

/// A literal, texts by their characters.
pub enum LitView {
    Int(Option<u32>),
    Str(Option<Seq<char>>),
    Other,
}

/// An item, texts by their characters.
pub enum NestedView {
    NameValue(Seq<char>, LitView),
    Lit(LitView),
    Other,
}

/// A field attribute, texts by their characters.
pub struct TagAttrView {
    pub offset: Option<u32>,
    pub size: Option<u32>,
    pub encode_fn: Option<Seq<char>>,
    pub decode_fn: Option<Seq<char>>,
}

/// The characters of an optional text.
pub open spec fn text_of(o: Option<String>) -> Option<Seq<char>> {
    match o {
        Some(s) => Some(s@),
        None => None,
    }
}

impl Lit {
    /// The literal, its text by characters.
    pub open spec fn view(&self) -> LitView {
        match self {
            Lit::Int(v) => LitView::Int(*v),
            Lit::Str(s) => LitView::Str(text_of(*s)),
            Lit::Other => LitView::Other,
        }
    }
}

impl Nested {
    /// The item, its texts by characters.
    pub open spec fn view(&self) -> NestedView {
        match self {
            Nested::NameValue(k, l) => NestedView::NameValue(k@, l.view()),
            Nested::Lit(l) => NestedView::Lit(l.view()),
            Nested::Other => NestedView::Other,
        }
    }
}

impl TagAttr {
    /// The attribute, its texts by characters.
    pub open spec fn view(&self) -> TagAttrView {
        TagAttrView {
            offset: self.offset,
            size: self.size,
            encode_fn: text_of(self.encode_fn),
            decode_fn: text_of(self.decode_fn),
        }
    }
}

/// The items of a list, their texts by characters.
pub open spec fn items_view(s: Seq<Nested>) -> Seq<NestedView> {
    s.map_values(|n: Nested| n.view())
}

/// An attribute with nothing set.
pub open spec fn empty_attr() -> TagAttrView {
    TagAttrView { offset: None, size: None, encode_fn: None, decode_fn: None }
}

/// One item read into an attribute: `offset` and `size` take an integer,
/// `encode_fn` and `decode_fn` a string holding a path, each at most once.
pub open spec fn read_item(acc: TagAttrView, item: NestedView) -> Result<TagAttrView, AttrError> {
    match item {
        NestedView::Lit(_) | NestedView::Other => Err(AttrError::ExpectedNameValue),
        NestedView::NameValue(key, lit) => {
            if key == "offset"@ {
                match lit {
                    LitView::Int(v) => if acc.offset is Some {
                        Err(AttrError::RedundantOffset)
                    } else {
                        match v {
                            Some(x) => Ok(TagAttrView { offset: Some(x), ..acc }),
                            None => Err(AttrError::BadLiteral),
                        }
                    },
                    _ => Err(AttrError::ExpectedInt),
                }
            } else if key == "size"@ {
                match lit {
                    LitView::Int(v) => if acc.size is Some {
                        Err(AttrError::RedundantSize)
                    } else {
                        match v {
                            Some(x) => Ok(TagAttrView { size: Some(x), ..acc }),
                            None => Err(AttrError::BadLiteral),
                        }
                    },
                    _ => Err(AttrError::ExpectedInt),
                }
            } else if key == "encode_fn"@ {
                match lit {
                    LitView::Str(p) => if acc.encode_fn is Some {
                        Err(AttrError::RedundantEncodeFn)
                    } else {
                        match p {
                            Some(x) => Ok(TagAttrView { encode_fn: Some(x), ..acc }),
                            None => Err(AttrError::BadLiteral),
                        }
                    },
                    _ => Err(AttrError::ExpectedStr),
                }
            } else if key == "decode_fn"@ {
                match lit {
                    LitView::Str(p) => if acc.decode_fn is Some {
                        Err(AttrError::RedundantDecodeFn)
                    } else {
                        match p {
                            Some(x) => Ok(TagAttrView { decode_fn: Some(x), ..acc }),
                            None => Err(AttrError::BadLiteral),
                        }
                    },
                    _ => Err(AttrError::ExpectedStr),
                }
            } else {
                Err(AttrError::UnknownAttr)
            }
        },
    }
}

/// The items read in order; the first refused item decides the error.
pub open spec fn read_items(items: Seq<NestedView>) -> Result<TagAttrView, AttrError>
    decreases items.len(),
{
    if items.len() == 0 {
        Ok(empty_attr())
    } else {
        match read_items(items.drop_last()) {
            Err(e) => Err(e),
            Ok(acc) => read_item(acc, items.last()),
        }
    }
}

/// What a `tag(..)` attribute says, or why it is refused: an encoding derive
/// needs an offset or an encoding function, a decoding one an offset or a
/// decoding function.
pub open spec fn tag_attr_of(items: Seq<NestedView>, ctx: Context) -> Result<TagAttrView, AttrError> {
    match read_items(items) {
        Err(e) => Err(e),
        Ok(a) => {
            if ctx.is_encode && a.encode_fn is None && a.offset is None {
                Err(AttrError::EncodeNeedsOffsetOrFn)
            } else if !ctx.is_encode && a.decode_fn is None && a.offset is None {
                Err(AttrError::DecodeNeedsOffsetOrFn)
            } else {
                Ok(a)
            }
        },
    }
}

/// An offset is enough for both derives: an attribute whose items read with an
/// offset set is accepted as read, whether the derive encodes or decodes; an
/// attribute is refused for want of an offset or function only when it has
/// neither an offset nor the function of the derive's direction.
pub proof fn lemma_offset_suffices(items: Seq<NestedView>, ctx: Context)
    ensures
        (match read_items(items) {
            Ok(a) => a.offset is Some ==> tag_attr_of(items, ctx) == Ok::<TagAttrView, AttrError>(a),
            Err(_) => true,
        }),
        (match read_items(items) {
            Ok(a) => (if ctx.is_encode {
                a.encode_fn is Some
            } else {
                a.decode_fn is Some
            }) ==> tag_attr_of(items, ctx) == Ok::<TagAttrView, AttrError>(a),
            Err(_) => true,
        }),
        tag_attr_of(items, ctx) == Err::<TagAttrView, AttrError>(AttrError::EncodeNeedsOffsetOrFn)
            ==> ctx.is_encode && (match read_items(items) {
            Ok(a) => a.offset is None && a.encode_fn is None,
            Err(_) => false,
        }),
        tag_attr_of(items, ctx) == Err::<TagAttrView, AttrError>(AttrError::DecodeNeedsOffsetOrFn)
            ==> !ctx.is_encode && (match read_items(items) {
            Ok(a) => a.offset is None && a.decode_fn is None,
            Err(_) => false,
        }),
{
    lemma_read_items_errors(items);
}

/// Reading items never refuses them for want of an offset or a function.
proof fn lemma_read_items_errors(items: Seq<NestedView>)
    ensures
        read_items(items) != Err::<TagAttrView, AttrError>(AttrError::EncodeNeedsOffsetOrFn),
        read_items(items) != Err::<TagAttrView, AttrError>(AttrError::DecodeNeedsOffsetOrFn),
    decreases items.len(),
{
    if items.len() > 0 {
        lemma_read_items_errors(items.drop_last());
    }
}

fn key_is(key: &String, name: &str) -> (b: bool)
    ensures
        b == (key@ == name@),
{
    *key == String::from_str(name)
}

/// read one item into an attribute
fn read_one(acc: TagAttr, item: &Nested) -> (r: Result<TagAttr, AttrError>)
    ensures
        r matches Ok(a) ==> read_item(acc.view(), item.view()) == Ok::<TagAttrView, AttrError>(
            a.view(),
        ),
        r matches Err(e) ==> read_item(acc.view(), item.view()) == Err::<TagAttrView, AttrError>(e),
{
    proof {
        reveal_strlit("offset");
        reveal_strlit("size");
        reveal_strlit("encode_fn");
        reveal_strlit("decode_fn");
    }
    match item {
        Nested::Lit(_) | Nested::Other => Err(AttrError::ExpectedNameValue),
        Nested::NameValue(key, lit) => {
            if key_is(key, "offset") {
                match lit {
                    Lit::Int(v) => {
                        if acc.offset.is_some() {
                            return Err(AttrError::RedundantOffset);
                        }
                        match v {
                            Some(x) => Ok(TagAttr { offset: Some(*x), ..acc }),
                            None => Err(AttrError::BadLiteral),
                        }
                    },
                    _ => Err(AttrError::ExpectedInt),
                }
            } else if key_is(key, "size") {
                match lit {
                    Lit::Int(v) => {
                        if acc.size.is_some() {
                            return Err(AttrError::RedundantSize);
                        }
                        match v {
                            Some(x) => Ok(TagAttr { size: Some(*x), ..acc }),
                            None => Err(AttrError::BadLiteral),
                        }
                    },
                    _ => Err(AttrError::ExpectedInt),
                }
            } else if key_is(key, "encode_fn") {
                match lit {
                    Lit::Str(p) => {
                        if acc.encode_fn.is_some() {
                            return Err(AttrError::RedundantEncodeFn);
                        }
                        match p {
                            Some(x) => Ok(TagAttr { encode_fn: Some(x.clone()), ..acc }),
                            None => Err(AttrError::BadLiteral),
                        }
                    },
                    _ => Err(AttrError::ExpectedStr),
                }
            } else if key_is(key, "decode_fn") {
                match lit {
                    Lit::Str(p) => {
                        if acc.decode_fn.is_some() {
                            return Err(AttrError::RedundantDecodeFn);
                        }
                        match p {
                            Some(x) => Ok(TagAttr { decode_fn: Some(x.clone()), ..acc }),
                            None => Err(AttrError::BadLiteral),
                        }
                    },
                    _ => Err(AttrError::ExpectedStr),
                }
            } else {
                Err(AttrError::UnknownAttr)
            }
        },
    }
}

/// what a field's `tag(..)` attribute says, or why it is refused
pub fn get_tag_attr(meta: &Meta, ctx: &Context) -> (r: Result<TagAttr, AttrError>)
    ensures
        *meta is Other ==> r == Err::<TagAttr, AttrError>(AttrError::BadUsage),
        *meta matches Meta::List(items) ==> (match r {
            Ok(a) => tag_attr_of(items_view(items@), *ctx) == Ok::<TagAttrView, AttrError>(a.view()),
            Err(e) => tag_attr_of(items_view(items@), *ctx) == Err::<TagAttrView, AttrError>(e),
        }),
{
    let items = match meta {
        Meta::List(items) => items,
        Meta::Other => return Err(AttrError::BadUsage),
    };
    let mut acc = TagAttr { offset: None, size: None, encode_fn: None, decode_fn: None };
    let mut i: usize = 0;
    let ghost all = items_view(items@);
    while i < items.len()
        invariant
            i <= items.len(),
            *meta == Meta::List(*items),
            all == items_view(items@),
            read_items(all.take(i as int)) == Ok::<TagAttrView, AttrError>(acc.view()),
        decreases items.len() - i,
    {
        proof {
            assert(all.take(i + 1).drop_last() =~= all.take(i as int));
            assert(all.take(i + 1).last() == items@[i as int].view());
        }
        acc = match read_one(acc, &items[i]) {
            Ok(a) => a,
            Err(e) => {
                proof {
                    lemma_read_items_stops(all, i as int + 1);
                }
                return Err(e);
            },
        };
        i = i + 1;
    }
    proof {
        assert(all.take(i as int) =~= all);
    }
    if ctx.is_encode && acc.encode_fn.is_none() && acc.offset.is_none() {
        return Err(AttrError::EncodeNeedsOffsetOrFn);
    } else if !ctx.is_encode && acc.decode_fn.is_none() && acc.offset.is_none() {
        return Err(AttrError::DecodeNeedsOffsetOrFn);
    }
    Ok(acc)
}

/// Once an item is refused, the items read in full are refused the same way.
proof fn lemma_read_items_stops(all: Seq<NestedView>, n: int)
    requires
        0 <= n <= all.len(),
        read_items(all.take(n)) is Err,
    ensures
        read_items(all) == read_items(all.take(n)),
    decreases all.len() - n,
{
    if n < all.len() {
        assert(all.take(n + 1).drop_last() =~= all.take(n));
        lemma_read_items_stops(all, n + 1);
    } else {
        assert(all.take(n) =~= all);
    }
}

/// A field with its `tag(..)` attributes.
#[derive(Debug, Clone, PartialEq, Eq)]
pub struct Field {
    /// the field's name
    pub name: String,
    /// the field's `tag(..)` attributes
    pub attrs: Vec<Meta>,
}

/// what the `tag(..)` attribute of each field says, in field order, or the
/// first field's refusal: a field with more than one such attribute is refused
pub fn get_fields(fields: &Vec<Field>, ctx: &Context) -> (r: Result<Vec<(String, TagAttr)>, AttrError>)
    requires
        fields@.len() > 0,
        forall|i: int|
            0 <= i < fields@.len() && #[trigger] fields@[i].attrs@.len() == 0 ==> exists|j: int|
                0 <= j < i && fields@[j].attrs@.len() > 0 && #[trigger] field_outcome(fields@[j], *ctx) is Err,
    ensures
        r matches Ok(v) ==> v@.len() == fields@.len() && forall|i: int|
            0 <= i < v@.len() ==> (#[trigger] v@[i]).0@ == fields@[i].name@ && field_outcome(
                fields@[i],
                *ctx,
            ) == Ok::<TagAttrView, AttrError>(v@[i].1.view()),
        r matches Err(e) ==> exists|i: int|
            0 <= i < fields@.len() && (#[trigger] field_outcome(fields@[i], *ctx)) == Err::<
                TagAttrView,
                AttrError,
            >(e) && forall|j: int| 0 <= j < i ==> #[trigger] field_outcome(fields@[j], *ctx) is Ok,
{
    let mut out: Vec<(String, TagAttr)> = Vec::new();
    let mut i: usize = 0;
    while i < fields.len()
        invariant
            i <= fields.len(),
            fields@.len() > 0,
            forall|k: int|
                0 <= k < fields@.len() && #[trigger] fields@[k].attrs@.len() == 0 ==> exists|j: int|
                    0 <= j < k && fields@[j].attrs@.len() > 0 && #[trigger] field_outcome(fields@[j], *ctx) is Err,
            out@.len() == i,
            forall|k: int|
                0 <= k < i ==> (#[trigger] out@[k]).0@ == fields@[k].name@ && field_outcome(
                    fields@[k],
                    *ctx,
                ) == Ok::<TagAttrView, AttrError>(out@[k].1.view()),
            forall|k: int| 0 <= k < i ==> #[trigger] field_outcome(fields@[k], *ctx) is Ok,
        decreases fields.len() - i,
    {
        let f = &fields[i];
        proof {
            if f.attrs@.len() == 0 {
                let j = choose|j: int|
                    0 <= j < i && fields@[j].attrs@.len() > 0 && #[trigger] field_outcome(fields@[j], *ctx) is Err;
                assert(field_outcome(fields@[j], *ctx) is Ok);
            }
        }
        if f.attrs.len() > 1 {
            assert(field_outcome(fields@[i as int], *ctx) == Err::<TagAttrView, AttrError>(
                AttrError::RedundantTagAttr,
            ));
            return Err(AttrError::RedundantTagAttr);
        }
        let attr = match get_tag_attr(&f.attrs[0], ctx) {
            Ok(a) => a,
            Err(e) => {
                assert(field_outcome(fields@[i as int], *ctx) == Err::<TagAttrView, AttrError>(e));
                return Err(e);
            },
        };
        assert(field_outcome(fields@[i as int], *ctx) == Ok::<TagAttrView, AttrError>(attr.view()));
        out.push((f.name.clone(), attr));
        i = i + 1;
    }
    Ok(out)
}

/// What the `tag(..)` attributes of a field say, or why they are refused.
pub open spec fn field_outcome(f: Field, ctx: Context) -> Result<TagAttrView, AttrError> {
    if f.attrs@.len() > 1 {
        Err(AttrError::RedundantTagAttr)
    } else {
        match f.attrs@[0] {
            Meta::List(items) => tag_attr_of(items_view(items@), ctx),
            Meta::Other => Err(AttrError::BadUsage),
        }
    }
}

/// How a derive reads or writes one field.
#[derive(Debug, Clone, PartialEq, Eq)]
pub enum Codec {
    /// through the function at this path, given the tag and the struct's offset
    Call(String),
    /// through the field type's own codec, at the struct's offset plus this one
    Offset(u32),
}

/// how a derive reads or writes each field, in field order: through the field's
/// own function when it names one, else at its offset
pub fn field_codecs(items: &Vec<(String, TagAttr)>, ctx: &Context) -> (r: Vec<(String, Codec)>)
    requires
        forall|i: int|
            0 <= i < items@.len() ==> if ctx.is_encode {
                (#[trigger] items@[i]).1.encode_fn is Some || items@[i].1.offset is Some
            } else {
                items@[i].1.decode_fn is Some || items@[i].1.offset is Some
            },
    ensures
        r@.len() == items@.len(),
        forall|i: int|
            0 <= i < r@.len() ==> {
                let a = (#[trigger] items@[i]).1;
                let f = if ctx.is_encode {
                    a.encode_fn
                } else {
                    a.decode_fn
                };
                &&& r@[i].0@ == items@[i].0@
                &&& f matches Some(p) ==> r@[i].1 matches Codec::Call(q) && q@ == p@
                &&& f is None ==> r@[i].1 == Codec::Offset(a.offset.unwrap())
            },
{
    let mut out: Vec<(String, Codec)> = Vec::new();
    let mut i: usize = 0;
    while i < items.len()
        invariant
            i <= items.len(),
            out@.len() == i,
            forall|k: int|
                0 <= k < items@.len() ==> if ctx.is_encode {
                    (#[trigger] items@[k]).1.encode_fn is Some || items@[k].1.offset is Some
                } else {
                    items@[k].1.decode_fn is Some || items@[k].1.offset is Some
                },
            forall|k: int|
                0 <= k < i ==> {
                    let a = (#[trigger] items@[k]).1;
                    let f = if ctx.is_encode {
                        a.encode_fn
                    } else {
                        a.decode_fn
                    };
                    &&& out@[k].0@ == items@[k].0@
                    &&& f matches Some(p) ==> out@[k].1 matches Codec::Call(q) && q@ == p@
                    &&& f is None ==> out@[k].1 == Codec::Offset(a.offset.unwrap())
                },
        decreases items.len() - i,
    {
        let (name, attr) = &items[i];
        let f = if ctx.is_encode {
            &attr.encode_fn
        } else {
            &attr.decode_fn
        };
        let codec = match f {
            Some(p) => Codec::Call(p.clone()),
            None => match attr.offset {
                Some(o) => Codec::Offset(o),
                None => Codec::Offset(0),
            },
        };
        out.push((name.clone(), codec));
        i = i + 1;
    }
    out
}

/// The offset an `offset(..)` attribute gives, or why it is refused: the
/// attribute is a list of a single integer literal.
pub open spec fn offset_attr_of(meta: Meta) -> Result<u32, AttrError> {
    match meta {
        Meta::Other => Err(AttrError::ExpectedList),
        Meta::List(items) => {
            if items@.len() != 1 {
                Err(AttrError::SingleOffsetOnly)
            } else {
                match items@[0] {
                    Nested::Lit(Lit::Int(Some(v))) => Ok(v),
                    Nested::Lit(Lit::Int(None)) => Err(AttrError::BadLiteral),
                    Nested::Lit(_) => Err(AttrError::ExpectedInt),
                    _ => Err(AttrError::SingleOffsetOnly),
                }
            }
        },
    }
}

/// the offset of an `offset(..)` attribute: a list of a single integer literal
pub fn get_offset_attr(meta: &Meta) -> (r: Result<u32, AttrError>)
    ensures
        r == offset_attr_of(*meta),
{
    match meta {
        Meta::Other => Err(AttrError::ExpectedList),
        Meta::List(items) => {
            if items.len() != 1 {
                return Err(AttrError::SingleOffsetOnly);
            }
            match &items[0] {
                Nested::Lit(Lit::Int(Some(v))) => Ok(*v),
                Nested::Lit(Lit::Int(None)) => Err(AttrError::BadLiteral),
                Nested::Lit(_) => Err(AttrError::ExpectedInt),
                _ => Err(AttrError::SingleOffsetOnly),
            }
        },
    }
}

/// The fields an offset derive reads and writes, each with its offset, in
/// field order: fields without an `offset(..)` attribute take no part; the
/// first field whose attributes are refused decides the error.
pub open spec fn offsets_of(fields: Seq<Field>) -> Result<Seq<(Seq<char>, u32)>, AttrError>
    decreases fields.len(),
{
    if fields.len() == 0 {
        Ok(Seq::empty())
    } else {
        match offsets_of(fields.drop_last()) {
            Err(e) => Err(e),
            Ok(acc) => {
                let f = fields.last();
                if f.attrs@.len() == 0 {
                    Ok(acc)
                } else if f.attrs@.len() > 1 {
                    Err(AttrError::RedundantOffsetAttr)
                } else {
                    match offset_attr_of(f.attrs@[0]) {
                        Ok(o) => Ok(acc.push((f.name@, o))),
                        Err(e) => Err(e),
                    }
                }
            },
        }
    }
}

/// the fields an offset derive reads and writes, with their offsets (the
/// `offset(..)` attributes of each field), or the first refusal; some field
/// holds such an attribute
pub fn offset_fields(fields: &Vec<Field>) -> (r: Result<Vec<(String, u32)>, AttrError>)
    requires
        exists|i: int| 0 <= i < fields@.len() && #[trigger] fields@[i].attrs@.len() > 0,
    ensures
        r matches Ok(v) ==> offsets_of(fields@) == Ok::<Seq<(Seq<char>, u32)>, AttrError>(
            v@.map_values(|p: (String, u32)| (p.0@, p.1)),
        ) && v@.len() > 0,
        r matches Err(e) ==> offsets_of(fields@) == Err::<Seq<(Seq<char>, u32)>, AttrError>(e),
{
    let mut out: Vec<(String, u32)> = Vec::new();
    let mut i: usize = 0;
    proof {
        assert(fields@.take(0).len() == 0);
        assert(out@.map_values(|p: (String, u32)| (p.0@, p.1)) =~= Seq::<(Seq<char>, u32)>::empty());
    }
    while i < fields.len()
        invariant
            i <= fields.len(),
            offsets_of(fields@.take(i as int)) == Ok::<Seq<(Seq<char>, u32)>, AttrError>(
                out@.map_values(|p: (String, u32)| (p.0@, p.1)),
            ),
            out@.len() == 0 ==> forall|k: int| 0 <= k < i ==> #[trigger] fields@[k].attrs@.len() == 0,
        decreases fields.len() - i,
    {
        let ghost before = out@;
        proof {
            assert(fields@.take(i + 1).drop_last() =~= fields@.take(i as int));
            assert(fields@.take(i + 1).last() == fields@[i as int]);
        }
        let f = &fields[i];
        if f.attrs.len() > 1 {
            proof { lemma_offsets_stop(fields@, i as int + 1); }
            return Err(AttrError::RedundantOffsetAttr);
        }
        if f.attrs.len() == 1 {
            match get_offset_attr(&f.attrs[0]) {
                Ok(o) => {
                    out.push((f.name.clone(), o));
                    proof {
                        assert(out@.map_values(|p: (String, u32)| (p.0@, p.1)) =~= before.map_values(
                            |p: (String, u32)| (p.0@, p.1),
                        ).push((f.name@, o)));
                    }
                },
                Err(e) => {
                    proof { lemma_offsets_stop(fields@, i as int + 1); }
                    return Err(e);
                },
            }
        }
        i = i + 1;
    }
    proof {
        assert(fields@.take(i as int) =~= fields@);
        if out@.len() == 0 {
            let k = choose|k: int| 0 <= k < fields@.len() && #[trigger] fields@[k].attrs@.len() > 0;
        }
    }
    Ok(out)
}

/// Once a field is refused, the offsets of all the fields are refused the
/// same way.
proof fn lemma_offsets_stop(all: Seq<Field>, n: int)
    requires
        0 <= n <= all.len(),
        offsets_of(all.take(n)) is Err,
    ensures
        offsets_of(all) == offsets_of(all.take(n)),
    decreases all.len() - n,
{
    if n < all.len() {
        assert(all.take(n + 1).drop_last() =~= all.take(n));
        lemma_offsets_stop(all, n + 1);
    } else {
        assert(all.take(n) =~= all);
    }
}

} // verus!
