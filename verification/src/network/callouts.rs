//! What the callouts of all layers have in common.
use vstd::prelude::*;

verus! {

/// What becomes of a packet or a connection.
#[derive(Clone, Copy, Debug, PartialEq, Eq, Structural)]
pub enum ClassifyAction {
    Continue,
    Permit,
    Block,
}

/// The answer of a callout.
#[derive(Clone, Copy, Debug, PartialEq, Eq, Structural)]
pub struct ClassifyOut {
    /// The action to set; none leaves it as it is.
    pub action: Option<ClassifyAction>,
    /// The packet is taken off silently.
    pub absorb: bool,
    /// Nobody may change the action any more.
    pub clear_write: bool,
}

pub open spec fn untouched() -> ClassifyOut {
    ClassifyOut { action: None, absorb: false, clear_write: false }
}

pub open spec fn answer(action: ClassifyAction) -> ClassifyOut {
    ClassifyOut { action: Some(action), absorb: false, clear_write: false }
}

impl ClassifyOut {
    /// Leaves everything as it is.
    pub fn keep() -> (o: ClassifyOut)
        ensures
            o == untouched(),
    {
        ClassifyOut { action: None, absorb: false, clear_write: false }
    }

    /// Sets the action.
    pub fn with(action: ClassifyAction) -> (o: ClassifyOut)
        ensures
            o == answer(action),
    {
        ClassifyOut { action: Some(action), absorb: false, clear_write: false }
    }
}

/// The answer where there is nothing to look at.
pub open spec fn answer_at_once(
    can_write: bool,
    known_layer: bool,
    has_data: bool,
    has_context: bool,
) -> Option<ClassifyOut> {
    if !can_write || !known_layer {
        Some(untouched())
    } else if !has_data {
        Some(answer(ClassifyAction::Continue))
    } else if !has_context {
        Some(untouched())
    } else {
        None
    }
}

/// The answer where there is nothing to look at: the action may not be set, the layer is not one
/// of the callout's, there are no data, or there is no handle. Otherwise none.
pub fn begin_classify(can_write: bool, known_layer: bool, has_data: bool, has_context: bool) -> (r:
    Option<ClassifyOut>)
    ensures
        r == answer_at_once(can_write, known_layer, has_data, has_context),
{
    if !can_write || !known_layer {
        Some(ClassifyOut::keep())
    } else if !has_data {
        Some(ClassifyOut::with(ClassifyAction::Continue))
    } else if !has_context {
        Some(ClassifyOut::keep())
    } else {
        None
    }
}

/// The value of a field, or 0 where it is not reported.
pub open spec fn reported_field(meta: Option<(u32, u32)>, field: u32) -> u32 {
    match meta {
        Some((present, value)) if present & field != 0 => value,
        _ => 0,
    }
}

/// Value of a field that the platform reports only if a flag is set.
pub fn metadata_field(meta: Option<(u32, u32)>, field: u32) -> (v: u32)
    ensures
        v == reported_field(meta, field),
{
    match meta {
        Some((present, value)) => {
            if (present & field) != 0 {
                value
            } else {
                0
            }
        },
        None => 0,
    }
}

/// The process that the platform reports, or 0. `meta` holds the flags that say what is reported,
/// and the process; `field` is the flag of the process.
pub fn process_id_of(meta: Option<(u32, u64)>, field: u32) -> (id: u32)
    ensures
        id == spec_process_id(meta, field),
{
    match meta {
        Some((present, id)) => {
            if (present & field) != 0 {
                (id % 0x1_0000_0000) as u32
            } else {
                0
            }
        },
        None => 0,
    }
}

pub open spec fn spec_process_id(meta: Option<(u32, u64)>, field: u32) -> u32 {
    match meta {
        Some((present, id)) if present & field != 0 => (id % 0x1_0000_0000) as u32,
        _ => 0,
    }
}

/// A value that a layer of the filtering platform reports.
#[derive(Clone, Copy, Debug)]
pub enum WfpValue {
    Uint8(u8),
    Uint16(u16),
    Uint32(u32),
    Bytes16([u8; 16]),
}

/// Where among the values that a layer reports the endpoints of a connection stand.
#[derive(Clone, Copy, Debug, PartialEq, Eq, Structural)]
pub struct ConnectionFields {
    pub layer_id: u16,
    pub local_address: usize,
    pub local_port: usize,
    pub remote_address: usize,
    pub remote_port: usize,
    pub protocol: usize,
}

/// The layers of the filtering platform for IPv4 and IPv6.
#[derive(Clone, Copy, Debug, PartialEq, Eq, Structural)]
pub struct ConnectionLayers {
    pub v4: ConnectionFields,
    pub v6: ConnectionFields,
}

/// A connection. An IPv4 address stands in the first four bytes.
#[derive(Clone, Copy, Debug)]
pub struct ParsedConnection {
    pub ipv4: bool,
    pub inbound: bool,
    pub layer_id: u16,
    pub process_id: u32,
    pub remote_addr: [u8; 16],
    pub remote_port: u16,
    pub local_addr: [u8; 16],
    pub local_port: u16,
    pub protocol: u8,
}

/// The values of a connection are there, and of the right kind.
pub open spec fn fields_present(f: ConnectionFields, ipv4: bool, values: Seq<WfpValue>) -> bool {
    &&& f.local_address < values.len()
    &&& f.local_port < values.len()
    &&& f.remote_address < values.len()
    &&& f.remote_port < values.len()
    &&& f.protocol < values.len()
    &&& if ipv4 {
        values[f.local_address as int] is Uint32 && values[f.remote_address as int] is Uint32
    } else {
        values[f.local_address as int] is Bytes16 && values[f.remote_address as int] is Bytes16
    }
    &&& values[f.local_port as int] is Uint16
    &&& values[f.remote_port as int] is Uint16
    &&& values[f.protocol as int] is Uint8
}

/// The sixteen bytes of an address.
pub open spec fn address_of(v: WfpValue) -> Seq<u8> {
    match v {
        WfpValue::Uint32(a) => seq![
            (a / 0x100_0000) as u8,
            (a / 0x1_0000 % 0x100) as u8,
            (a / 0x100 % 0x100) as u8,
            (a % 0x100) as u8,
        ] + Seq::new(12, |i: int| 0u8),
        WfpValue::Bytes16(b) => b@,
        _ => Seq::empty(),
    }
}

/// `p` is the connection that a layer reports.
pub open spec fn is_connection(
    p: ParsedConnection,
    f: ConnectionFields,
    ipv4: bool,
    inbound: bool,
    values: Seq<WfpValue>,
    process_id: u32,
) -> bool {
    &&& p.ipv4 == ipv4
    &&& p.inbound == inbound
    &&& p.layer_id == f.layer_id
    &&& p.process_id == process_id
    &&& p.local_addr@ == address_of(values[f.local_address as int])
    &&& p.remote_addr@ == address_of(values[f.remote_address as int])
    &&& values[f.local_port as int] == WfpValue::Uint16(p.local_port)
    &&& values[f.remote_port as int] == WfpValue::Uint16(p.remote_port)
    &&& values[f.protocol as int] == WfpValue::Uint8(p.protocol)
}

fn get_address(v: &WfpValue) -> (b: [u8; 16])
    requires
        v is Uint32 || v is Bytes16,
    ensures
        b@ == address_of(*v),
{
    match v {
        WfpValue::Bytes16(b) => *b,
        WfpValue::Uint32(a) => {
            let mut b: [u8; 16] = [0u8; 16];
            b[0] = (*a / 0x100_0000) as u8;
            b[1] = (*a / 0x1_0000 % 0x100) as u8;
            b[2] = (*a / 0x100 % 0x100) as u8;
            b[3] = (*a % 0x100) as u8;
            assert(b@ =~= address_of(*v));
            b
        },
        _ => [0u8; 16],
    }
}

fn get_port(v: &WfpValue) -> (p: u16)
    requires
        v is Uint16,
    ensures
        *v == WfpValue::Uint16(p),
{
    match v {
        WfpValue::Uint16(p) => *p,
        _ => 0,
    }
}

/// `r` is the connection that one of two layers reports, or none for another layer.
pub open spec fn connection_read(
    layers: ConnectionLayers,
    layer_id: u16,
    values: Seq<WfpValue>,
    inbound: bool,
    process_id: u32,
    r: Option<ParsedConnection>,
) -> bool {
    if layer_id == layers.v4.layer_id {
        r matches Some(p) && is_connection(p, layers.v4, true, inbound, values, process_id)
    } else if layer_id == layers.v6.layer_id {
        r matches Some(p) && is_connection(p, layers.v6, false, inbound, values, process_id)
    } else {
        r is None
    }
}

/// Reads the connection that a layer reports; none if the layer is not one of `layers`.
pub fn parse_connection(
    layers: &ConnectionLayers,
    layer_id: u16,
    values: &Vec<WfpValue>,
    inbound: bool,
    process_id: u32,
) -> (r: Option<ParsedConnection>)
    requires
        layer_id == layers.v4.layer_id ==> fields_present(layers.v4, true, values@),
        layer_id == layers.v6.layer_id && layer_id != layers.v4.layer_id ==> fields_present(
            layers.v6,
            false,
            values@,
        ),
    ensures
        connection_read(*layers, layer_id, values@, inbound, process_id, r),
{
    let (ipv4, f): (bool, ConnectionFields) = if layer_id == layers.v4.layer_id {
        (true, layers.v4)
    } else if layer_id == layers.v6.layer_id {
        (false, layers.v6)
    } else {
        return None;
    };
    let protocol: u8 = match &values[f.protocol] {
        WfpValue::Uint8(p) => *p,
        _ => 0,
    };
    Some(
        ParsedConnection {
            ipv4,
            inbound,
            layer_id,
            process_id,
            remote_addr: get_address(&values[f.remote_address]),
            remote_port: get_port(&values[f.remote_port]),
            local_addr: get_address(&values[f.local_address]),
            local_port: get_port(&values[f.local_port]),
            protocol,
        },
    )
}

/// The value of four bytes, most significant first.
pub open spec fn network_order(b: Seq<u8>) -> int {
    0x100_0000 * b[0] + 0x1_0000 * b[1] + 0x100 * b[2] + b[3]
}

/// The endpoints of a connection are those that the layer reports, each at its own end: an IPv4
/// address is the number in network order, with zeros behind it, an IPv6 address the sixteen bytes.
pub proof fn law_endpoints_are_those_reported(
    p: ParsedConnection,
    f: ConnectionFields,
    ipv4: bool,
    inbound: bool,
    values: Seq<WfpValue>,
    process_id: u32,
)
    requires
        fields_present(f, ipv4, values),
        is_connection(p, f, ipv4, inbound, values, process_id),
    ensures
        p.ipv4 == ipv4,
        p.inbound == inbound,
        p.process_id == process_id,
        values[f.local_address as int] matches WfpValue::Uint32(v) ==> network_order(p.local_addr@)
            == v && p.local_addr@.skip(4) == Seq::new(12, |i: int| 0u8),
        values[f.remote_address as int] matches WfpValue::Uint32(v) ==> network_order(
            p.remote_addr@,
        ) == v && p.remote_addr@.skip(4) == Seq::new(12, |i: int| 0u8),
        values[f.local_address as int] matches WfpValue::Bytes16(b) ==> p.local_addr@ == b@,
        values[f.remote_address as int] matches WfpValue::Bytes16(b) ==> p.remote_addr@ == b@,
        values[f.local_port as int] matches WfpValue::Uint16(v) ==> p.local_port == v,
        values[f.remote_port as int] matches WfpValue::Uint16(v) ==> p.remote_port == v,
        values[f.protocol as int] matches WfpValue::Uint8(v) ==> p.protocol == v,
{
    lemma_address_bytes(values[f.local_address as int]);
    lemma_address_bytes(values[f.remote_address as int]);
}

proof fn lemma_address_bytes(v: WfpValue)
    ensures
        v matches WfpValue::Uint32(a) ==> network_order(address_of(v)) == a && address_of(v).skip(4)
            == Seq::new(12, |i: int| 0u8),
{
    match v {
        WfpValue::Uint32(a) => {
            let b = address_of(v);
            assert(b.skip(4) =~= Seq::new(12, |i: int| 0u8));
            assert(b[0] == a / 0x100_0000 && b[1] == a / 0x1_0000 % 0x100 && b[2] == a / 0x100
                % 0x100 && b[3] == a % 0x100);
        },
        _ => {},
    }
}

/// The process of a connection is the one reported, as far as 32 bits hold it, where the flags say
/// that one is; else it is 0.
pub proof fn law_process_is_the_one_reported(present: u32, id: u32, field: u32)
    ensures
        present & field != 0 ==> spec_process_id(Some((present, id as u64)), field) == id,
        present & field == 0 ==> spec_process_id(Some((present, id as u64)), field) == 0,
        spec_process_id(None, field) == 0,
{
}

/// A packet is looked at exactly if there is one, at a layer of the callout, for a handle, and its
/// action may be set. Nothing that is not looked at is blocked or taken off.
pub proof fn law_nothing_is_blocked_unseen(
    can_write: bool,
    known_layer: bool,
    has_data: bool,
    has_context: bool,
)
    ensures
        match answer_at_once(can_write, known_layer, has_data, has_context) {
            None => can_write && known_layer && has_data && has_context,
            Some(out) => {
                &&& !(can_write && known_layer && has_data && has_context)
                &&& out.action is None || out.action == Some(ClassifyAction::Continue)
                &&& !out.absorb
                &&& !out.clear_write
                &&& !can_write ==> out.action is None
            },
        },
{
}

} // verus!
