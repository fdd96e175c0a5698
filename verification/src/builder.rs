//! builders for tag path and tag

use vstd::prelude::*;
use vstd::string::StringExecFns;
use crate::debug::{DebugLevel, level_value};
use crate::text::{decimal, is_u8_str, is_u8_text, push_decimal};

verus! {

/// tag builder error
#[derive(Debug, Clone, Copy, PartialEq, Eq, Structural)]
pub enum Error {
    /// no protocol was given
    ProtocolRequired,
    /// an EIP path needs the kind of PLC
    PlcKindRequired,
    /// a ControlLogix path needs the CIP path
    PathRequiredForControlLogix,
    /// a Micro800 path must not have a CIP path
    PathNotAllowedForMicro800,
    /// the element size is needed
    ElementSizeRequired,
    /// a Modbus path needs the gateway
    GatewayRequired,
    /// a Modbus path needs the register name
    NameRequired,
    /// a Modbus path (unit id) is a number in [0-255]
    PathNotUnitId,
    /// a Modbus path needs the unit id
    PathRequired,
}

/// The message of a builder error.
pub open spec fn error_message(e: Error) -> Seq<char> {
    match e {
        Error::ProtocolRequired => "protocol required"@,
        Error::PlcKindRequired => "plc kind required"@,
        Error::PathRequiredForControlLogix => "path required for controllogix"@,
        Error::PathNotAllowedForMicro800 => "path must not provided for micro800"@,
        Error::ElementSizeRequired => "element size required"@,
        Error::GatewayRequired => "gateway required"@,
        Error::NameRequired => "name required"@,
        Error::PathNotUnitId => "path is a number in range [0-255]"@,
        Error::PathRequired => "path required"@,
    }
}

impl Error {
    /// the message of this error, as the error prints itself
    pub fn message(&self) -> (s: &'static str)
        ensures
            s@ == error_message(*self),
    {
        match self {
            Error::ProtocolRequired => "protocol required",
            Error::PlcKindRequired => "plc kind required",
            Error::PathRequiredForControlLogix => "path required for controllogix",
            Error::PathNotAllowedForMicro800 => "path must not provided for micro800",
            Error::ElementSizeRequired => "element size required",
            Error::GatewayRequired => "gateway required",
            Error::NameRequired => "name required",
            Error::PathNotUnitId => "path is a number in range [0-255]",
            Error::PathRequired => "path required",
        }
    }

    /// the message of this error
    pub fn to_string(&self) -> (s: String)
        ensures
            s@ == error_message(*self),
    {
        String::from_str(self.message())
    }
}

/// library supported protocols
#[derive(Debug, Copy, Clone, Eq, PartialEq, Structural)]
pub enum Protocol {
    /// EIP protocol
    EIP,
    /// Modbus protocol
    ModBus,
}

/// The name of a protocol in a tag path.
pub open spec fn protocol_text(p: Protocol) -> Seq<char> {
    match p {
        Protocol::EIP => "ab-eip"@,
        Protocol::ModBus => "modbus-tcp"@,
    }
}

impl Protocol {
    /// the name of this protocol in a tag path
    pub fn as_str(&self) -> (s: &'static str)
        ensures
            s@ == protocol_text(*self),
    {
        match self {
            Protocol::EIP => "ab-eip",
            Protocol::ModBus => "modbus-tcp",
        }
    }

    /// the name of this protocol in a tag path
    pub fn to_string(&self) -> (s: String)
        ensures
            s@ == protocol_text(*self),
    {
        String::from_str(self.as_str())
    }
}

/// modbus supported register
#[derive(Debug, Copy, Clone, Eq, PartialEq, Structural)]
pub enum Register {
    /// coil registers
    Coil(u16),
    /// discrete inputs
    Discrete(u16),
    /// holding registers
    Holding(u16),
    /// input registers
    Input(u16),
}

/// The name of a register: its type prefix, then its number.
pub open spec fn register_text(r: Register) -> Seq<char> {
    match r {
        Register::Coil(v) => "co"@ + decimal(v as nat),
        Register::Discrete(v) => "di"@ + decimal(v as nat),
        Register::Holding(v) => "hr"@ + decimal(v as nat),
        Register::Input(v) => "ir"@ + decimal(v as nat),
    }
}

impl Register {
    /// the name of this register in a tag path
    pub fn to_string(&self) -> (s: String)
        ensures
            s@ == register_text(*self),
    {
        let mut s = String::new();
        let v: u16 = match self {
            Register::Coil(v) => {
                s.append("co");
                *v
            },
            Register::Discrete(v) => {
                s.append("di");
                *v
            },
            Register::Holding(v) => {
                s.append("hr");
                *v
            },
            Register::Input(v) => {
                s.append("ir");
                *v
            },
        };
        push_decimal(&mut s, v as usize);
        s
    }
}

/// plc kind, required for EIP protocol
#[derive(Debug, Copy, Clone, Eq, PartialEq, Structural)]
pub enum PlcKind {
    /// Tell the library that this tag is in a Control Logix-class PLC
    ControlLogix,
    /// Tell the library that this tag is in a PLC/5 PLC
    PLC5,
    /// Tell the library that this tag is in a SLC 500 PLC
    SLC500,
    /// Tell the library that this tag is in a Control Logix-class PLC using the PLC/5 protocol
    LogixPCCC,
    /// Tell the library that this tag is in a Micro800-class PLC
    Micro800,
    /// Tell the library that this tag is in a Micrologix PLC
    MicroLogix,
}

/// The name of a PLC kind in a tag path.
pub open spec fn plc_text(p: PlcKind) -> Seq<char> {
    match p {
        PlcKind::ControlLogix => "controllogix"@,
        PlcKind::PLC5 => "plc5"@,
        PlcKind::SLC500 => "slc500"@,
        PlcKind::LogixPCCC => "logixpccc"@,
        PlcKind::Micro800 => "micro800"@,
        PlcKind::MicroLogix => "micrologix"@,
    }
}

impl PlcKind {
    /// the name of this PLC kind in a tag path
    pub fn as_str(&self) -> (s: &'static str)
        ensures
            s@ == plc_text(*self),
    {
        match self {
            PlcKind::ControlLogix => "controllogix",
            PlcKind::PLC5 => "plc5",
            PlcKind::SLC500 => "slc500",
            PlcKind::LogixPCCC => "logixpccc",
            PlcKind::Micro800 => "micro800",
            PlcKind::MicroLogix => "micrologix",
        }
    }

    /// the name of this PLC kind in a tag path
    pub fn to_string(&self) -> (s: String)
        ensures
            s@ == plc_text(*self),
    {
        String::from_str(self.as_str())
    }
}

/// builder to build tag full path
#[derive(Debug)]
pub struct PathBuilder {
    protocol: Option<Protocol>,
    debug: Option<DebugLevel>,
    elem_count: Option<usize>,
    elem_size: Option<usize>,
    read_cache_ms: Option<usize>,
    plc: Option<PlcKind>,
    name: Option<String>,
    path: Option<String>,
    gateway: Option<String>,
    use_connected_msg: Option<bool>,
}

/// The attributes a [`PathBuilder`] holds, texts taken by their characters.
pub struct PathBuilderView {
    pub protocol: Option<Protocol>,
    pub debug: Option<DebugLevel>,
    pub elem_count: Option<usize>,
    pub elem_size: Option<usize>,
    pub read_cache_ms: Option<usize>,
    pub plc: Option<PlcKind>,
    pub name: Option<Seq<char>>,
    pub path: Option<Seq<char>>,
    pub gateway: Option<Seq<char>>,
    pub use_connected_msg: Option<bool>,
}

/// The characters of an optional text.
pub open spec fn opt_text(o: Option<String>) -> Option<Seq<char>> {
    match o {
        Some(s) => Some(s@),
        None => None,
    }
}

impl View for PathBuilder {
    type V = PathBuilderView;

    closed spec fn view(&self) -> PathBuilderView {
        PathBuilderView {
            protocol: self.protocol,
            debug: self.debug,
            elem_count: self.elem_count,
            elem_size: self.elem_size,
            read_cache_ms: self.read_cache_ms,
            plc: self.plc,
            name: opt_text(self.name),
            path: opt_text(self.path),
            gateway: opt_text(self.gateway),
            use_connected_msg: self.use_connected_msg,
        }
    }
}

/// A builder with no attribute set.
pub open spec fn empty_builder() -> PathBuilderView {
    PathBuilderView {
        protocol: None,
        debug: None,
        elem_count: None,
        elem_size: None,
        read_cache_ms: None,
        plc: None,
        name: None,
        path: None,
        gateway: None,
        use_connected_msg: None,
    }
}

/// Which required attribute is missing, or which attributes conflict, in the
/// order in which they are checked; `Ok` when the attributes make a tag path.
pub open spec fn check_attrs(v: PathBuilderView) -> Result<(), Error> {
    match v.protocol {
        None => Err(Error::ProtocolRequired),
        Some(Protocol::EIP) => match v.plc {
            None => Err(Error::PlcKindRequired),
            Some(plc) => {
                if plc == PlcKind::ControlLogix {
                    if v.path is None {
                        Err(Error::PathRequiredForControlLogix)
                    } else {
                        Ok(())
                    }
                } else if plc == PlcKind::Micro800 && v.path is Some {
                    Err(Error::PathNotAllowedForMicro800)
                } else if v.elem_size is None {
                    Err(Error::ElementSizeRequired)
                } else {
                    Ok(())
                }
            },
        },
        Some(Protocol::ModBus) => {
            if v.gateway is None {
                Err(Error::GatewayRequired)
            } else if v.name is None {
                Err(Error::NameRequired)
            } else {
                match v.path {
                    Some(p) => {
                        if !is_u8_text(p) {
                            Err(Error::PathNotUnitId)
                        } else {
                            Ok(())
                        }
                    },
                    None => Err(Error::PathRequired),
                }
            }
        },
    }
}

/// Texts joined with `&` between each two.
pub open spec fn join_amp(parts: Seq<Seq<char>>) -> Seq<char>
    decreases parts.len(),
{
    if parts.len() == 0 {
        Seq::empty()
    } else if parts.len() == 1 {
        parts[0]
    } else {
        join_amp(parts.drop_last()) + seq!['&'] + parts.last()
    }
}

/// The `key=value` parts of the attributes that have a value, in order.
#[verifier::opaque]
pub open spec fn present(attrs: Seq<(Seq<char>, Option<Seq<char>>)>) -> Seq<Seq<char>>
    decreases attrs.len(),
{
    if attrs.len() == 0 {
        Seq::empty()
    } else {
        match attrs.last().1 {
            Some(x) => present(attrs.drop_last()).push(attrs.last().0 + x),
            None => present(attrs.drop_last()),
        }
    }
}

/// The decimal text of an optional number.
pub open spec fn opt_decimal(n: Option<usize>) -> Option<Seq<char>> {
    match n {
        Some(x) => Some(decimal(x as nat)),
        None => None,
    }
}

/// The attributes only an EIP path holds: the PLC kind, then the
/// connected-messaging flag (`1` or `0`).
pub open spec fn eip_attrs(v: PathBuilderView) -> Seq<(Seq<char>, Option<Seq<char>>)> {
    seq![
        (
            "plc="@,
            match v.plc {
                Some(k) => Some(plc_text(k)),
                None => None,
            },
        ),
        (
            "use_connected_msg="@,
            match v.use_connected_msg {
                Some(yes) => Some(decimal(if yes { 1 } else { 0 })),
                None => None,
            },
        ),
    ]
}

/// The attributes every path may hold, after the protocol's own: gateway,
/// path, name, element count, element size, read cache period, debug level.
pub open spec fn common_attrs(v: PathBuilderView) -> Seq<(Seq<char>, Option<Seq<char>>)> {
    seq![
        ("gateway="@, v.gateway),
        ("path="@, v.path),
        ("name="@, v.name),
        ("elem_count="@, opt_decimal(v.elem_count)),
        ("elem_size="@, opt_decimal(v.elem_size)),
        ("read_cache_ms="@, opt_decimal(v.read_cache_ms)),
        (
            "debug="@,
            match v.debug {
                Some(d) => Some(decimal(level_value(d) as nat)),
                None => None,
            },
        ),
    ]
}

/// The protocol part of a path.
pub open spec fn protocol_part(v: PathBuilderView) -> Seq<char> {
    "protocol="@ + protocol_text(v.protocol.unwrap())
}

/// The first parts of a path: the protocol, then for EIP its own attributes.
pub open spec fn head_parts(v: PathBuilderView) -> Seq<Seq<char>> {
    if v.protocol == Some(Protocol::EIP) {
        seq![protocol_part(v)] + present(eip_attrs(v))
    } else {
        seq![protocol_part(v)]
    }
}

/// The `key=value` attributes of a tag path, in the order the path holds them:
/// the head parts, then the common attributes that are set.
pub open spec fn path_parts(v: PathBuilderView) -> Seq<Seq<char>> {
    head_parts(v) + present(common_attrs(v))
}

/// The tag path of a builder's attributes.
pub open spec fn path_text(v: PathBuilderView) -> Seq<char> {
    join_amp(path_parts(v))
}

/// No attribute gives no part.
proof fn lemma_present_none(attrs: Seq<(Seq<char>, Option<Seq<char>>)>)
    ensures
        present(attrs.take(0)) == Seq::<Seq<char>>::empty(),
{
    reveal_with_fuel(present, 1);
    assert(attrs.take(0).len() == 0);
}

/// Taking one more attribute adds its part when it has a value.
proof fn lemma_present_step(
    head: Seq<Seq<char>>,
    attrs: Seq<(Seq<char>, Option<Seq<char>>)>,
    k: int,
)
    requires
        0 <= k < attrs.len(),
    ensures
        attrs[k].1 matches Some(x) ==> head + present(attrs.take(k + 1)) == (head + present(
            attrs.take(k),
        )).push(attrs[k].0 + x),
        attrs[k].1 is None ==> head + present(attrs.take(k + 1)) == head + present(attrs.take(k)),
{
    reveal_with_fuel(present, 1);
    assert(attrs.take(k + 1).drop_last() =~= attrs.take(k));
    assert(attrs.take(k + 1).last() == attrs[k]);
    if let Some(x) = attrs[k].1 {
        assert(head + present(attrs.take(k + 1)) =~= (head + present(attrs.take(k))).push(
            attrs[k].0 + x,
        ));
    }
}

proof fn lemma_join_first(parts: Seq<Seq<char>>)
    requires
        parts.len() > 0,
    ensures
        join_amp(parts).len() >= parts[0].len(),
        join_amp(parts).subrange(0, parts[0].len() as int) == parts[0],
    decreases parts.len(),
{
    if parts.len() > 1 {
        let t = parts.drop_last();
        lemma_join_first(t);
        assert(t[0] == parts[0]);
        let j = join_amp(t);
        assert((j + seq!['&'] + parts.last()).subrange(0, parts[0].len() as int) =~= j.subrange(
            0,
            parts[0].len() as int,
        ));
    }
}

/// Every tag path a builder makes starts with `protocol=` and the name of its
/// protocol.
pub proof fn lemma_path_starts_with_protocol(v: PathBuilderView)
    requires
        check_attrs(v) is Ok,
    ensures
        path_text(v).len() >= protocol_part(v).len(),
        path_text(v).subrange(0, protocol_part(v).len() as int) == protocol_part(v),
{
    assert(path_parts(v)[0] == protocol_part(v));
    lemma_join_first(path_parts(v));
}

/// What comes before part `i` of a joined path: the parts before it and a `&`,
/// or nothing for the first part.
pub open spec fn segment_prefix(parts: Seq<Seq<char>>, i: int) -> Seq<char> {
    if i == 0 {
        Seq::empty()
    } else {
        join_amp(parts.take(i)) + seq!['&']
    }
}

/// What comes after part `i` of a joined path: a `&` and the parts after it, or
/// nothing for the last part.
pub open spec fn segment_suffix(parts: Seq<Seq<char>>, i: int) -> Seq<char> {
    if i + 1 >= parts.len() {
        Seq::empty()
    } else {
        seq!['&'] + join_amp(parts.skip(i + 1))
    }
}

/// Whether a text starts with another.
pub open spec fn starts_with(s: Seq<char>, p: Seq<char>) -> bool {
    s.len() >= p.len() && s.subrange(0, p.len() as int) == p
}

/// Joining splits between any two parts.
proof fn lemma_join_split(parts: Seq<Seq<char>>, n: int)
    requires
        1 <= n < parts.len(),
    ensures
        join_amp(parts) == join_amp(parts.take(n)) + seq!['&'] + join_amp(parts.skip(n)),
    decreases parts.len(),
{
    let t = parts.drop_last();
    if n == parts.len() - 1 {
        assert(parts.take(n) =~= t);
        assert(parts.skip(n) =~= seq![parts.last()]);
    } else {
        lemma_join_split(t, n);
        assert(t.take(n) =~= parts.take(n));
        assert(parts.skip(n).drop_last() =~= t.skip(n));
        assert(parts.skip(n).last() == parts.last());
        assert(join_amp(parts.skip(n)) == join_amp(t.skip(n)) + seq!['&'] + parts.last());
        assert(join_amp(parts) =~= join_amp(parts.take(n)) + seq!['&'] + join_amp(parts.skip(n)));
    }
}

/// Every part of a joined path stands between `&`s (or an end of the path).
pub proof fn lemma_part_is_segment(parts: Seq<Seq<char>>, i: int)
    requires
        0 <= i < parts.len(),
    ensures
        join_amp(parts) == segment_prefix(parts, i) + parts[i] + segment_suffix(parts, i),
{
    let rest = parts.skip(i);
    if i + 1 < parts.len() {
        lemma_join_split(rest, 1);
        assert(rest.take(1) =~= seq![parts[i]]);
        assert(rest.skip(1) =~= parts.skip(i + 1));
    } else {
        assert(rest =~= seq![parts[i]]);
    }
    assert(join_amp(rest) =~= parts[i] + segment_suffix(parts, i));
    if i == 0 {
        assert(rest =~= parts);
        assert(join_amp(parts) =~= segment_prefix(parts, i) + parts[i] + segment_suffix(parts, i));
    } else {
        lemma_join_split(parts, i);
        assert(join_amp(parts) =~= segment_prefix(parts, i) + parts[i] + segment_suffix(parts, i));
    }
}

/// The first parts of an EIP path: the protocol, then the PLC kind.
proof fn lemma_eip_head(v: PathBuilderView, k: PlcKind)
    requires
        v.protocol == Some(Protocol::EIP),
        v.plc == Some(k),
    ensures
        path_parts(v).len() >= 2,
        path_parts(v)[0] == protocol_part(v),
        path_parts(v)[1] == "plc="@ + plc_text(k),
        v.use_connected_msg matches Some(yes) ==> path_parts(v).len() >= 3 && path_parts(v)[2]
            == "use_connected_msg="@ + decimal(if yes { 1 } else { 0 }),
{
    reveal_with_fuel(present, 3);
    let e = eip_attrs(v);
    assert(e.drop_last() =~= seq![e[0]]);
    assert(seq![e[0]].drop_last() =~= Seq::<(Seq<char>, Option<Seq<char>>)>::empty());
    assert(present(seq![e[0]]) =~= seq!["plc="@ + plc_text(k)]);
}

/// No `&` in the name of a protocol or of a PLC kind.
proof fn lemma_names_without_amp(v: PathBuilderView, k: PlcKind)
    requires
        v.protocol is Some,
    ensures
        !protocol_part(v).contains('&'),
        !("plc="@ + plc_text(k)).contains('&'),
{
    reveal_strlit("protocol=");
    reveal_strlit("ab-eip");
    reveal_strlit("modbus-tcp");
    reveal_strlit("plc=");
    reveal_strlit("controllogix");
    reveal_strlit("plc5");
    reveal_strlit("slc500");
    reveal_strlit("logixpccc");
    reveal_strlit("micro800");
    reveal_strlit("micrologix");
    let p = protocol_part(v);
    assert forall|i: int| 0 <= i < p.len() implies p[i] != '&' by {}
    let q = "plc="@ + plc_text(k);
    assert forall|i: int| 0 <= i < q.len() implies q[i] != '&' by {}
}

/// A path built for an EIP PLC holds the PLC kind as its second segment: the
/// path is the protocol part, `&`, `plc=` and the kind's name, then the end of
/// the path or a `&` (neither of the first two segments holds a `&`).
pub proof fn lemma_plc_segment(v: PathBuilderView, k: PlcKind)
    requires
        v.protocol == Some(Protocol::EIP),
        v.plc == Some(k),
    ensures
        path_parts(v)[1] == "plc="@ + plc_text(k),
        path_text(v) == protocol_part(v) + seq!['&'] + ("plc="@ + plc_text(k)) + segment_suffix(
            path_parts(v),
            1,
        ),
        !protocol_part(v).contains('&'),
        !("plc="@ + plc_text(k)).contains('&'),
{
    lemma_eip_head(v, k);
    lemma_names_without_amp(v, k);
    let parts = path_parts(v);
    lemma_part_is_segment(parts, 1);
    assert(parts.take(1) =~= seq![parts[0]]);
}

/// A path built for an EIP PLC with the messaging flag set holds it right
/// after the PLC kind: `use_connected_msg=1` for connected messaging, `=0` for
/// unconnected, between `&`s (or at the end).
pub proof fn lemma_connected_msg_segment(v: PathBuilderView, k: PlcKind, yes: bool)
    requires
        v.protocol == Some(Protocol::EIP),
        v.plc == Some(k),
        v.use_connected_msg == Some(yes),
    ensures
        path_parts(v)[2] == "use_connected_msg="@ + seq![if yes { '1' } else { '0' }],
        path_text(v) == protocol_part(v) + seq!['&'] + ("plc="@ + plc_text(k)) + seq!['&'] + (
        "use_connected_msg="@ + seq![if yes { '1' } else { '0' }]) + segment_suffix(path_parts(v), 2),
{
    lemma_eip_head(v, k);
    let parts = path_parts(v);
    assert(decimal(1) =~= seq!['1']);
    assert(decimal(0) =~= seq!['0']);
    lemma_part_is_segment(parts, 2);
    let two = parts.take(2);
    assert(two.drop_last() =~= seq![parts[0]]);
    assert(two.last() == parts[1]);
    assert(join_amp(seq![parts[0]]) == parts[0]);
    assert(join_amp(two) == join_amp(two.drop_last()) + seq!['&'] + two.last());
    assert(join_amp(two) == parts[0] + seq!['&'] + parts[1]);
}

/// Whether no text that starts with `key` starts with `bad`: they differ at
/// some place both hold.
pub open spec fn keys_differ(key: Seq<char>, bad: Seq<char>) -> bool {
    exists|c: int| 0 <= c < key.len() && c < bad.len() && key[c] != bad[c]
}

proof fn lemma_differ_not_prefix(key: Seq<char>, x: Seq<char>, bad: Seq<char>)
    requires
        keys_differ(key, bad),
    ensures
        !starts_with(key + x, bad),
{
    let c = choose|c: int| 0 <= c < key.len() && c < bad.len() && key[c] != bad[c];
    if starts_with(key + x, bad) {
        assert((key + x).subrange(0, bad.len() as int)[c] == (key + x)[c]);
    }
}

proof fn lemma_present_avoids(attrs: Seq<(Seq<char>, Option<Seq<char>>)>, bad: Seq<char>)
    requires
        forall|j: int| 0 <= j < attrs.len() ==> keys_differ(#[trigger] attrs[j].0, bad),
    ensures
        forall|i: int| 0 <= i < present(attrs).len() ==> !starts_with(#[trigger] present(attrs)[i], bad),
    decreases attrs.len(),
{
    reveal_with_fuel(present, 1);
    if attrs.len() > 0 {
        let t = attrs.drop_last();
        assert forall|j: int| 0 <= j < t.len() implies keys_differ(#[trigger] t[j].0, bad) by {
            assert(t[j] == attrs[j]);
        }
        lemma_present_avoids(t, bad);
        let pt = present(t);
        if let Some(x) = attrs.last().1 {
            assert(attrs[attrs.len() - 1] == attrs.last());
            lemma_differ_not_prefix(attrs.last().0, x, bad);
            assert(present(attrs) == pt.push(attrs.last().0 + x));
            assert forall|i: int| 0 <= i < present(attrs).len() implies !starts_with(
                #[trigger] present(attrs)[i],
                bad,
            ) by {
                if i < pt.len() {
                    assert(present(attrs)[i] == pt[i]);
                }
            }
        } else {
            assert(present(attrs) == pt);
        }
    }
}

/// A Modbus path holds neither a `plc=` segment nor a `use_connected_msg=` one.
pub proof fn lemma_modbus_without_eip_segments(v: PathBuilderView)
    requires
        v.protocol == Some(Protocol::ModBus),
    ensures
        forall|i: int|
            0 <= i < path_parts(v).len() ==> !starts_with(#[trigger] path_parts(v)[i], "plc="@)
                && !starts_with(path_parts(v)[i], "use_connected_msg="@),
{
    reveal_strlit("plc=");
    reveal_strlit("use_connected_msg=");
    reveal_strlit("protocol=");
    reveal_strlit("modbus-tcp");
    reveal_strlit("gateway=");
    reveal_strlit("path=");
    reveal_strlit("name=");
    reveal_strlit("elem_count=");
    reveal_strlit("elem_size=");
    reveal_strlit("read_cache_ms=");
    reveal_strlit("debug=");
    let a = common_attrs(v);
    assert forall|j: int| 0 <= j < a.len() implies keys_differ(#[trigger] a[j].0, "plc="@)
        && keys_differ(a[j].0, "use_connected_msg="@) by {
        if j == 1 {
            assert(a[j].0[1] != "plc="@[1]);
        } else {
            assert(a[j].0[0] != "plc="@[0]);
        }
        assert(a[j].0[0] != "use_connected_msg="@[0]);
    }
    lemma_present_avoids(a, "plc="@);
    lemma_present_avoids(a, "use_connected_msg="@);
    let p = protocol_part(v);
    assert(p[1] != "plc="@[1]);
    assert(p[0] != "use_connected_msg="@[0]);
    lemma_differ_not_prefix(p, Seq::empty(), "plc="@);
    lemma_differ_not_prefix(p, Seq::empty(), "use_connected_msg="@);
    assert(p + Seq::<char>::empty() =~= p);
    let parts = path_parts(v);
    assert forall|i: int| 0 <= i < parts.len() implies !starts_with(#[trigger] parts[i], "plc="@)
        && !starts_with(parts[i], "use_connected_msg="@) by {
        if i > 0 {
            assert(parts[i] == present(a)[i - 1]);
        }
    }
}

proof fn lemma_present_has(attrs: Seq<(Seq<char>, Option<Seq<char>>)>, j: int, x: Seq<char>)
    requires
        0 <= j < attrs.len(),
        attrs[j].1 == Some(x),
    ensures
        present(attrs).contains(attrs[j].0 + x),
    decreases attrs.len(),
{
    reveal_with_fuel(present, 1);
    let t = attrs.drop_last();
    if j == attrs.len() - 1 {
        assert(attrs.last() == attrs[j]);
        assert(present(attrs).last() == attrs[j].0 + x);
    } else {
        assert(t[j] == attrs[j]);
        lemma_present_has(t, j, x);
        let i = choose|i: int| 0 <= i < present(t).len() && present(t)[i] == attrs[j].0 + x;
        if attrs.last().1 is Some {
            assert(present(attrs)[i] == present(t)[i]);
        }
    }
}

/// The name a builder holds stands in its path as the segment `name=` and the
/// name, between `&`s (or at the end).
pub proof fn lemma_name_segment(v: PathBuilderView, n: Seq<char>)
    requires
        v.protocol is Some,
        v.name == Some(n),
    ensures
        exists|i: int|
            0 <= i < path_parts(v).len() && #[trigger] path_parts(v)[i] == "name="@ + n
                && path_text(v) == segment_prefix(path_parts(v), i) + ("name="@ + n)
                + segment_suffix(path_parts(v), i),
{
    let a = common_attrs(v);
    lemma_present_has(a, 2, n);
    let h = head_parts(v);
    let k = choose|k: int| 0 <= k < present(a).len() && present(a)[k] == "name="@ + n;
    let parts = path_parts(v);
    assert(parts[h.len() + k] == present(a)[k]);
    lemma_part_is_segment(parts, h.len() + k);
}

/// A register set through `register` stands in the path as `name=`, its
/// type prefix and its number (`co42` for coil 42), between `&`s.
pub proof fn lemma_register_segment(v: PathBuilderView, r: Register)
    requires
        v.protocol is Some,
        v.name == Some(register_text(r)),
    ensures
        exists|i: int|
            0 <= i < path_parts(v).len() && #[trigger] path_parts(v)[i] == "name="@ + register_text(r)
                && path_text(v) == segment_prefix(path_parts(v), i) + ("name="@ + register_text(r))
                + segment_suffix(path_parts(v), i),
{
    lemma_name_segment(v, register_text(r));
}

/// A ControlLogix tag needs no element size: an EIP builder for a
/// ControlLogix PLC with a CIP path is accepted whatever its element size
/// (and its other attributes). The element size is required only for the
/// other EIP PLC kinds, and never for Modbus.
pub proof fn lemma_element_size_rules(v: PathBuilderView)
    ensures
        v.protocol == Some(Protocol::EIP) && v.plc == Some(PlcKind::ControlLogix) && v.path is Some
            ==> check_attrs(v) == Ok::<(), Error>(()),
        check_attrs(v) == Err::<(), Error>(Error::ElementSizeRequired) ==> v.protocol == Some(
            Protocol::EIP,
        ) && v.elem_size is None && v.plc is Some && v.plc != Some(PlcKind::ControlLogix),
        v.elem_size is Some ==> check_attrs(v) != Err::<(), Error>(Error::ElementSizeRequired),
{
}

/// A Modbus unit id written as the decimal text of a byte is accepted.
pub proof fn lemma_unit_id_accepted(n: u8)
    ensures
        is_u8_text(decimal(n as nat)),
{
    crate::text::lemma_decimal_round_trip(n as nat);
    let s = decimal(n as nat);
    assert(s[0] != '+') by {
        assert(crate::text::is_digit(s[0]));
    }
    assert(crate::text::unsigned_digits(s) == s);
}

proof fn lemma_join_push(parts: Seq<Seq<char>>, x: Seq<char>)
    requires
        parts.len() > 0,
    ensures
        join_amp(parts.push(x)) == join_amp(parts) + seq!['&'] + x,
{
    assert(parts.push(x).drop_last() =~= parts);
}

/// Appends `&`, then `key`, then `value`.
fn push_part(out: &mut String, parts: Ghost<Seq<Seq<char>>>, key: &str, value: &str)
    requires
        parts@.len() > 0,
        old(out)@ == join_amp(parts@),
    ensures
        final(out)@ == join_amp(parts@.push(key@ + value@)),
{
    proof {
        reveal_strlit("&");
        lemma_join_push(parts@, key@ + value@);
    }
    out.append("&");
    out.append(key);
    out.append(value);
    assert(final(out)@ =~= join_amp(parts@) + seq!['&'] + (key@ + value@));
}

/// Appends `&`, then `key`, then the decimal text of `n`.
fn push_number_part(out: &mut String, parts: Ghost<Seq<Seq<char>>>, key: &str, n: usize)
    requires
        parts@.len() > 0,
        old(out)@ == join_amp(parts@),
    ensures
        final(out)@ == join_amp(parts@.push(key@ + decimal(n as nat))),
{
    proof {
        reveal_strlit("&");
        lemma_join_push(parts@, key@ + decimal(n as nat));
    }
    out.append("&");
    out.append(key);
    push_decimal(out, n);
    assert(final(out)@ =~= join_amp(parts@) + seq!['&'] + (key@ + decimal(n as nat)));
}

impl Default for PathBuilder {
    fn default() -> (b: PathBuilder)
        ensures
            b@ == empty_builder(),
    {
        PathBuilder {
            protocol: None,
            debug: None,
            elem_count: None,
            elem_size: None,
            read_cache_ms: None,
            plc: None,
            name: None,
            path: None,
            gateway: None,
            use_connected_msg: None,
        }
    }
}

impl PathBuilder {
    /// generic attribute.
    /// defining the current debugging level.
    pub fn debug(&mut self, level: DebugLevel) -> (r: &mut Self)
        ensures
            r@ == (PathBuilderView { debug: Some(level), ..old(self)@ }),
            *final(self) == *final(r),
    {
        self.debug = Some(level);
        self
    }

    /// generic attribute.
    /// Required. Determines the type of the PLC protocol.
    pub fn protocol(&mut self, protocol: Protocol) -> (r: &mut Self)
        ensures
            r@ == (PathBuilderView { protocol: Some(protocol), ..old(self)@ }),
            *final(self) == *final(r),
    {
        self.protocol = Some(protocol);
        self
    }

    /// generic attribute.
    /// Optional. How many elements are in the tag. Defaults to one (1)
    pub fn element_count(&mut self, count: usize) -> (r: &mut Self)
        ensures
            r@ == (PathBuilderView { elem_count: Some(count), ..old(self)@ }),
            *final(self) == *final(r),
    {
        self.elem_count = Some(count);
        self
    }

    /// generic attribute
    /// Required for some protocols or PLC types. The size of a single element of the tag;
    /// ignored for Modbus and for ControlLogix-class PLCs.
    pub fn element_size(&mut self, size: usize) -> (r: &mut Self)
        ensures
            r@ == (PathBuilderView { elem_size: Some(size), ..old(self)@ }),
            *final(self) == *final(r),
    {
        self.elem_size = Some(size);
        self
    }

    /// generic attribute:
    /// Optional. An integer number of milliseconds to cache read data.
    pub fn read_cache_ms(&mut self, millis: usize) -> (r: &mut Self)
        ensures
            r@ == (PathBuilderView { read_cache_ms: Some(millis), ..old(self)@ }),
            *final(self) == *final(r),
    {
        self.read_cache_ms = Some(millis);
        self
    }

    /// Required for EIP. Determines the type of the PLC
    pub fn plc(&mut self, plc: PlcKind) -> (r: &mut Self)
        ensures
            r@ == (PathBuilderView { plc: Some(plc), ..old(self)@ }),
            *final(self) == *final(r),
    {
        self.plc = Some(plc);
        self
    }

    /// IP address or host name of the PLC or of the gateway to it
    /// (for Modbus with an optional port, e.g. `10.1.2.3:502`).
    pub fn gateway(&mut self, gateway: &str) -> (r: &mut Self)
        ensures
            r@ == (PathBuilderView { gateway: Some(gateway@), ..old(self)@ }),
            *final(self) == *final(r),
    {
        self.gateway = Some(String::from_str(gateway));
        self
    }

    /// - EIP: the full name of the tag.
    /// - ModBus: the type and first register number of a tag, e.g. co42 for coil 42.
    pub fn name(&mut self, name: &str) -> (r: &mut Self)
        ensures
            r@ == (PathBuilderView { name: Some(name@), ..old(self)@ }),
            *final(self) == *final(r),
    {
        self.name = Some(String::from_str(name));
        self
    }

    /// set register for Modbus
    pub fn register(&mut self, reg: Register) -> (r: &mut Self)
        ensures
            r@ == (PathBuilderView { name: Some(register_text(reg)), ..old(self)@ }),
            *final(self) == *final(r),
    {
        self.name = Some(reg.to_string());
        self
    }

    /// - EIP: CIP path to PLC CPU, e.g. `1,0`.
    /// - ModBus: the server/unit ID, an integer value between 0 and 255.
    pub fn path(&mut self, path: &str) -> (r: &mut Self)
        ensures
            r@ == (PathBuilderView { path: Some(path@), ..old(self)@ }),
            *final(self) == *final(r),
    {
        self.path = Some(String::from_str(path));
        self
    }

    /// EIP only
    /// Optional 1 = use CIP connection, 0 = use UCMM.
    pub fn use_connected_msg(&mut self, yes: bool) -> (r: &mut Self)
        ensures
            r@ == (PathBuilderView { use_connected_msg: Some(yes), ..old(self)@ }),
            *final(self) == *final(r),
    {
        self.use_connected_msg = Some(yes);
        self
    }

    /// check required attributes or conflict attributes
    fn check(&self) -> (r: Result<(), Error>)
        ensures
            r == check_attrs(self@),
    {
        let protocol = match self.protocol {
            None => return Err(Error::ProtocolRequired),
            Some(p) => p,
        };
        match protocol {
            Protocol::EIP => {
                let plc = match self.plc {
                    None => return Err(Error::PlcKindRequired),
                    Some(k) => k,
                };
                if plc == PlcKind::ControlLogix {
                    if self.path.is_none() {
                        return Err(Error::PathRequiredForControlLogix);
                    }
                    return Ok(());
                } else if plc == PlcKind::Micro800 && self.path.is_some() {
                    return Err(Error::PathNotAllowedForMicro800);
                }
                if self.elem_size.is_none() {
                    return Err(Error::ElementSizeRequired);
                }
            },
            Protocol::ModBus => {
                if self.gateway.is_none() {
                    return Err(Error::GatewayRequired);
                }
                if self.name.is_none() {
                    return Err(Error::NameRequired);
                }
                match &self.path {
                    Some(path) => {
                        if !is_u8_str(path.as_str()) {
                            return Err(Error::PathNotUnitId);
                        }
                    },
                    None => return Err(Error::PathRequired),
                }
            },
        }
        Ok(())
    }

    /// append the common attributes that are set, after the head parts
    #[verifier::spinoff_prover]
    #[verifier::rlimit(30)]
    fn push_common(&self, out: &mut String, parts: Ghost<Seq<Seq<char>>>)
        requires
            parts@.len() > 0,
            old(out)@ == join_amp(parts@),
        ensures
            final(out)@ == join_amp(parts@ + present(common_attrs(self@))),
    {
        let ghost v = self@;
        let ghost head = parts@;
        let ghost mut parts: Seq<Seq<char>> = parts@;
        let ghost attrs = common_attrs(v);
        proof {
            lemma_present_none(attrs);
            assert(parts =~= head + present(attrs.take(0)));
        }
        if let Some(gateway) = &self.gateway {
            push_part(out, Ghost(parts), "gateway=", gateway.as_str());
            proof { parts = parts.push("gateway="@ + gateway@); }
        }
        proof {
            lemma_present_step(head, attrs, 0);
            assert(parts == head + present(attrs.take(1)));
        }
        if let Some(path) = &self.path {
            push_part(out, Ghost(parts), "path=", path.as_str());
            proof { parts = parts.push("path="@ + path@); }
        }
        proof {
            lemma_present_step(head, attrs, 1);
            assert(parts == head + present(attrs.take(2)));
        }
        if let Some(name) = &self.name {
            push_part(out, Ghost(parts), "name=", name.as_str());
            proof { parts = parts.push("name="@ + name@); }
        }
        proof {
            lemma_present_step(head, attrs, 2);
            assert(parts == head + present(attrs.take(3)));
        }
        if let Some(n) = self.elem_count {
            push_number_part(out, Ghost(parts), "elem_count=", n);
            proof { parts = parts.push("elem_count="@ + decimal(n as nat)); }
        }
        proof {
            lemma_present_step(head, attrs, 3);
            assert(parts == head + present(attrs.take(4)));
        }
        if let Some(n) = self.elem_size {
            push_number_part(out, Ghost(parts), "elem_size=", n);
            proof { parts = parts.push("elem_size="@ + decimal(n as nat)); }
        }
        proof {
            lemma_present_step(head, attrs, 4);
            assert(parts == head + present(attrs.take(5)));
        }
        if let Some(n) = self.read_cache_ms {
            push_number_part(out, Ghost(parts), "read_cache_ms=", n);
            proof { parts = parts.push("read_cache_ms="@ + decimal(n as nat)); }
        }
        proof {
            lemma_present_step(head, attrs, 5);
            assert(parts == head + present(attrs.take(6)));
        }
        if let Some(d) = self.debug {
            let level = d.value() as usize;
            push_number_part(out, Ghost(parts), "debug=", level);
            proof { parts = parts.push("debug="@ + decimal(level as nat)); }
        }
        proof {
            lemma_present_step(head, attrs, 6);
            assert(parts == head + present(attrs.take(7)));
            assert(attrs.take(7) =~= attrs);
        }
    }

    /// build full tag path
    pub fn build(&self) -> (r: Result<String, Error>)
        ensures
            r is Ok <==> check_attrs(self@) is Ok,
            r matches Err(e) ==> check_attrs(self@) == Err::<(), Error>(e),
            r matches Ok(s) ==> s@ == path_text(self@),
    {
        match self.check() {
            Err(e) => return Err(e),
            Ok(()) => {},
        }
        let protocol = match self.protocol {
            Some(p) => p,
            None => return Err(Error::ProtocolRequired),
        };
        let ghost v = self@;
        let mut out = String::new();
        out.append("protocol=");
        out.append(protocol.as_str());
        let ghost mut parts: Seq<Seq<char>> = seq!["protocol="@ + protocol_text(protocol)];
        match protocol {
            Protocol::EIP => {
                let ghost eip = eip_attrs(v);
                let ghost first = seq![protocol_part(v)];
                proof {
                    lemma_present_none(eip);
                    assert(parts =~= first + present(eip.take(0)));
                }
                if let Some(plc) = self.plc {
                    push_part(&mut out, Ghost(parts), "plc=", plc.as_str());
                    proof { parts = parts.push("plc="@ + plc_text(plc)); }
                }
                proof {
                    lemma_present_step(first, eip, 0);
                    assert(parts == first + present(eip.take(1)));
                }
                if let Some(yes) = self.use_connected_msg {
                    let flag: usize = if yes { 1 } else { 0 };
                    push_number_part(&mut out, Ghost(parts), "use_connected_msg=", flag);
                    proof { parts = parts.push("use_connected_msg="@ + decimal(flag as nat)); }
                }
                proof {
                    lemma_present_step(first, eip, 1);
                    assert(eip.take(2) =~= eip);
                    assert(parts == head_parts(v));
                }
            },
            Protocol::ModBus => {},
        }
        proof {
            assert(head_parts(v).len() > 0);
        }
        self.push_common(&mut out, Ghost(head_parts(v)));
        Ok(out)
    }
}

} // verus!
