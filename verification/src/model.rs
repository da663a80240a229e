//! Domain entities: device types, device instances, contexts, the world.

use std::collections::BTreeMap;
use vstd::prelude::*;
use crate::behavior::{DeviceBehavior, DeviceBehaviorOverrides};
use crate::encoding::{DataType, Encoding, Value, spec_word_count};

verus! {

/// `uuid::Uuid::new_v4`, as the 128-bit value of the UUID. The bits are
/// random; the source masks in the version nibble 4 and the RFC 4122 variant
/// bits `10`, which is all that is stated here.
#[verifier::external_body]
fn random_uuid() -> (r: u128)
    ensures
        (r >> 76u128) & 0xFu128 == 4,
        (r >> 62u128) & 0x3u128 == 2,
{
    uuid::Uuid::new_v4().as_u128()
}

/// Identity of a device type (the 128-bit value of a UUID).
#[derive(Debug, Clone, Copy, PartialEq, Eq, Structural, PartialOrd, Ord, Hash)]
pub struct DeviceTypeId(pub u128);

/// Identity of a device instance.
#[derive(Debug, Clone, Copy, PartialEq, Eq, Structural, PartialOrd, Ord, Hash)]
pub struct DeviceId(pub u128);

/// Identity of a register point.
#[derive(Debug, Clone, Copy, PartialEq, Eq, Structural, PartialOrd, Ord, Hash)]
pub struct RegisterId(pub u128);

/// Identity of a context.
#[derive(Debug, Clone, Copy, PartialEq, Eq, Structural, PartialOrd, Ord, Hash)]
pub struct ContextId(pub u128);

impl DeviceTypeId {
    /// A fresh random (version 4) id: random bits, with the version and
    /// variant fields of a version 4 UUID.
    pub fn new() -> (r: Self)
        ensures
            (r.0 >> 76u128) & 0xFu128 == 4,
            (r.0 >> 62u128) & 0x3u128 == 2,
    {
        DeviceTypeId(random_uuid())
    }
}

impl DeviceId {
    /// A fresh random (version 4) id: random bits, with the version and
    /// variant fields of a version 4 UUID.
    pub fn new() -> (r: Self)
        ensures
            (r.0 >> 76u128) & 0xFu128 == 4,
            (r.0 >> 62u128) & 0x3u128 == 2,
    {
        DeviceId(random_uuid())
    }
}

impl RegisterId {
    /// A fresh random (version 4) id: random bits, with the version and
    /// variant fields of a version 4 UUID.
    pub fn new() -> (r: Self)
        ensures
            (r.0 >> 76u128) & 0xFu128 == 4,
            (r.0 >> 62u128) & 0x3u128 == 2,
    {
        RegisterId(random_uuid())
    }
}

impl ContextId {
    /// A fresh random (version 4) id: random bits, with the version and
    /// variant fields of a version 4 UUID.
    pub fn new() -> (r: Self)
        ensures
            (r.0 >> 76u128) & 0xFu128 == 4,
            (r.0 >> 62u128) & 0x3u128 == 2,
    {
        ContextId(random_uuid())
    }
}

/// The four Modbus register tables.
#[derive(Debug, Clone, Copy, PartialEq, Eq, Structural, PartialOrd, Ord, Hash)]
pub enum RegisterKind {
    Holding,
    Input,
    Coil,
    Discrete,
}

impl RegisterKind {
    pub open spec fn spec_is_bit(self) -> bool {
        self == RegisterKind::Coil || self == RegisterKind::Discrete
    }

    /// Coils and discrete inputs hold single bits.
    pub fn is_bit(self) -> (r: bool)
        ensures
            r == self.spec_is_bit(),
    {
        matches!(self, RegisterKind::Coil | RegisterKind::Discrete)
    }

    /// Holding registers and coils can be written by a master.
    pub fn is_writable(self) -> (r: bool)
        ensures
            r == (self == RegisterKind::Holding || self == RegisterKind::Coil),
    {
        matches!(self, RegisterKind::Holding | RegisterKind::Coil)
    }
}

/// One data point of a device type's register layout.
#[derive(Debug, Clone, PartialEq)]
pub struct RegisterPoint {
    pub id: RegisterId,
    pub kind: RegisterKind,
    pub address: u16,
    pub name: String,
    pub description: String,
    pub data_type: DataType,
    pub encoding: Encoding,
    /// Only meaningful for `DataType::String`.
    pub byte_length: Option<usize>,
    pub default_value: Value,
}

impl RegisterPoint {
    /// The number of registers (or bit slots) the point occupies, as `u16`.
    pub open spec fn spec_word_count(&self) -> u16 {
        if self.kind.spec_is_bit() {
            1
        } else {
            (spec_word_count(self.data_type, self.byte_length) % 0x1_0000) as u16
        }
    }

    /// How many 16-bit registers (or bit slots) this point occupies.
    pub fn word_count(&self) -> (r: u16)
        ensures
            r == self.spec_word_count(),
    {
        if self.kind.is_bit() {
            1
        } else {
            (self.data_type.word_count(self.byte_length) % 0x1_0000) as u16
        }
    }
}

/// A reusable device template: register layout and behavior.
#[derive(Debug, Clone, PartialEq)]
pub struct DeviceType {
    pub id: DeviceTypeId,
    pub name: String,
    pub description: String,
    pub registers: Vec<RegisterPoint>,
    pub behavior: DeviceBehavior,
}

/// A register's runtime value.
#[derive(Debug, Clone, PartialEq)]
pub struct RegisterValue {
    pub register_id: RegisterId,
    pub value: Value,
}

/// A simulated slave: an instance of a device type.
#[derive(Debug, Clone, PartialEq)]
pub struct Device {
    pub id: DeviceId,
    pub name: String,
    pub slave_id: u8,
    pub device_type_id: DeviceTypeId,
    pub behavior_overrides: Option<DeviceBehaviorOverrides>,
    /// Per-instance runtime values, keyed by the register id's value.
    /// Missing entries fall back to the type default.
    pub register_values: BTreeMap<u128, Value>,
}

/// Modbus TCP listener settings.
#[derive(Debug, Clone, PartialEq)]
pub struct TcpTransport {
    pub enabled: bool,
    pub bind: String,
    pub port: u16,
}

impl Default for TcpTransport {
    fn default() -> (r: Self)
        ensures
            !r.enabled,
            r.bind@ == Seq::<char>::empty(),
            r.port == 0,
    {
        TcpTransport { enabled: false, bind: String::new(), port: 0 }
    }
}

/// Modbus RTU serial settings.
#[derive(Debug, Clone, PartialEq, Eq)]
pub struct RtuTransport {
    pub enabled: bool,
    pub device: String,
    pub baud_rate: u32,
    pub parity: String,
    pub data_bits: u8,
    pub stop_bits: u8,
    /// When set, the RTU loop serves the master side of this virtual serial
    /// pair instead of opening `device`.
    pub virtual_serial_id: Option<String>,
}

impl Default for RtuTransport {
    fn default() -> (r: Self)
        ensures
            !r.enabled,
            r.device@ == Seq::<char>::empty(),
            r.baud_rate == 0,
            r.parity@ == Seq::<char>::empty(),
            r.data_bits == 0,
            r.stop_bits == 0,
            r.virtual_serial_id is None,
    {
        RtuTransport {
            enabled: false,
            device: String::new(),
            baud_rate: 0,
            parity: String::new(),
            data_bits: 0,
            stop_bits: 0,
            virtual_serial_id: None,
        }
    }
}

/// Both transports of a context.
#[derive(Debug, Clone, PartialEq)]
pub struct TransportConfig {
    pub tcp: TcpTransport,
    pub rtu: RtuTransport,
}

impl Default for TransportConfig {
    fn default() -> (r: Self)
        ensures
            !r.tcp.enabled,
            r.tcp.bind@ == Seq::<char>::empty(),
            r.tcp.port == 0,
            !r.rtu.enabled,
            r.rtu.device@ == Seq::<char>::empty(),
            r.rtu.baud_rate == 0,
            r.rtu.parity@ == Seq::<char>::empty(),
            r.rtu.data_bits == 0,
            r.rtu.stop_bits == 0,
            r.rtu.virtual_serial_id is None,
    {
        TransportConfig { tcp: TcpTransport::default(), rtu: RtuTransport::default() }
    }
}

/// A context bundles devices and transport settings. Device types are shared
/// between contexts and referenced by id.
#[derive(Debug, Clone, PartialEq)]
pub struct Context {
    pub id: ContextId,
    pub name: String,
    pub devices: Vec<Device>,
    pub transport: TransportConfig,
}

/// The full in-memory world: device types, contexts and which context is
/// active.
#[derive(Debug, Clone)]
pub struct World {
    pub device_types: Vec<DeviceType>,
    pub contexts: Vec<Context>,
    pub active_context_id: Option<ContextId>,
}

impl Default for World {
    fn default() -> (r: Self)
        ensures
            r.device_types@.len() == 0,
            r.contexts@.len() == 0,
            r.active_context_id is None,
    {
        World { device_types: Vec::new(), contexts: Vec::new(), active_context_id: None }
    }
}

/// Index of the first element of `s` that satisfies `p`.
pub open spec fn first_index<T>(s: Seq<T>, p: spec_fn(T) -> bool) -> Option<int> {
    if exists|i: int| 0 <= i < s.len() && p(s[i]) {
        Some(choose|i: int| 0 <= i < s.len() && p(s[i]) && forall|j: int| 0 <= j < i ==> !p(s[j]))
    } else {
        None
    }
}

/// `first_index` is the least index that satisfies the predicate.
pub proof fn lemma_first_index<T>(s: Seq<T>, p: spec_fn(T) -> bool)
    ensures
        first_index(s, p) matches Some(i) ==> {
            &&& 0 <= i < s.len()
            &&& p(s[i])
            &&& forall|j: int| 0 <= j < i ==> !p(s[j])
        },
        first_index(s, p) is None ==> forall|i: int| 0 <= i < s.len() ==> !p(s[i]),
{
    if exists|i: int| 0 <= i < s.len() && p(s[i]) {
        let w = choose|i: int| 0 <= i < s.len() && p(s[i]);
        lemma_first_match(s, p, w);
    }
}

proof fn lemma_first_match<T>(s: Seq<T>, p: spec_fn(T) -> bool, w: int)
    requires
        0 <= w < s.len(),
        p(s[w]),
    ensures
        exists|i: int| 0 <= i < s.len() && p(s[i]) && forall|j: int| 0 <= j < i ==> !p(s[j]),
    decreases w,
{
    if exists|j: int| 0 <= j < w && p(s[j]) {
        let j = choose|j: int| 0 <= j < w && p(s[j]);
        lemma_first_match(s, p, j);
    }
}

/// Every index that satisfies `p` and has no earlier match is `first_index`.
pub proof fn lemma_first_index_unique<T>(s: Seq<T>, p: spec_fn(T) -> bool, i: int)
    requires
        0 <= i < s.len(),
        p(s[i]),
        forall|j: int| 0 <= j < i ==> !p(s[j]),
    ensures
        first_index(s, p) == Some(i),
{
    lemma_first_index(s, p);
    let k = first_index(s, p)->0;
    assert(k == i) by {
        if k < i {
            assert(!p(s[k]));
        } else if k > i {
            assert(!p(s[i]));
        }
    }
}

/// Index of the first device type with the given id.
pub open spec fn type_index(types: Seq<DeviceType>, id: DeviceTypeId) -> Option<int> {
    first_index(types, |t: DeviceType| t.id == id)
}

/// Index of the first context with the given id.
pub open spec fn context_index(contexts: Seq<Context>, id: ContextId) -> Option<int> {
    first_index(contexts, |c: Context| c.id == id)
}

impl World {
    /// Index of the active context, when one is set and exists.
    pub open spec fn active_index(&self) -> Option<int> {
        match self.active_context_id {
            Some(id) => context_index(self.contexts@, id),
            None => None,
        }
    }

    pub(crate) fn find_type(&self, id: DeviceTypeId) -> (r: Option<usize>)
        ensures
            r matches Some(i) ==> i < self.device_types@.len() && type_index(self.device_types@, id)
                == Some(i as int),
            r is None ==> type_index(self.device_types@, id) is None,
    {
        proof {
            lemma_first_index(self.device_types@, |t: DeviceType| t.id == id);
        }
        let mut i: usize = 0;
        while i < self.device_types.len()
            invariant
                i <= self.device_types@.len(),
                forall|j: int| 0 <= j < i ==> self.device_types@[j].id != id,
            decreases self.device_types@.len() - i,
        {
            if self.device_types[i].id == id {
                proof {
                    lemma_first_index_unique(self.device_types@, |t: DeviceType| t.id == id, i as int);
                }
                return Some(i);
            }
            i = i + 1;
        }
        None
    }

    pub(crate) fn find_context(&self, id: ContextId) -> (r: Option<usize>)
        ensures
            r matches Some(i) ==> i < self.contexts@.len() && context_index(self.contexts@, id) == Some(
                i as int,
            ),
            r is None ==> context_index(self.contexts@, id) is None,
    {
        proof {
            lemma_first_index(self.contexts@, |c: Context| c.id == id);
        }
        let mut i: usize = 0;
        while i < self.contexts.len()
            invariant
                i <= self.contexts@.len(),
                forall|j: int| 0 <= j < i ==> self.contexts@[j].id != id,
            decreases self.contexts@.len() - i,
        {
            if self.contexts[i].id == id {
                proof {
                    lemma_first_index_unique(self.contexts@, |c: Context| c.id == id, i as int);
                }
                return Some(i);
            }
            i = i + 1;
        }
        None
    }

    /// The first device type with the given id.
    pub fn device_type(&self, id: DeviceTypeId) -> (r: Option<&DeviceType>)
        ensures
            match type_index(self.device_types@, id) {
                Some(i) => r == Some(&self.device_types@[i]),
                None => r is None,
            },
    {
        match self.find_type(id) {
            Some(i) => Some(&self.device_types[i]),
            None => None,
        }
    }

    /// The active context, when the active id names an existing context.
    pub fn active_context(&self) -> (r: Option<&Context>)
        ensures
            match self.active_index() {
                Some(i) => r == Some(&self.contexts@[i]),
                None => r is None,
            },
    {
        let id = self.active_context_id?;
        match self.find_context(id) {
            Some(i) => Some(&self.contexts[i]),
            None => None,
        }
    }

    /// Index of the active context in `contexts`.
    pub fn active_context_index(&self) -> (r: Option<usize>)
        ensures
            r is None <==> self.active_index() is None,
            r matches Some(k) ==> k < self.contexts@.len() && self.active_index() == Some(k as int),
    {
        let id = self.active_context_id?;
        self.find_context(id)
    }
}

} // verus!

