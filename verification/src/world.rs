//! Operations on the in-memory world: the changes the API makes to device
//! types, devices and contexts, each a pure step that the server then
//! persists. Slave lookup for the transports lives here too.

use std::collections::BTreeMap;
use vstd::prelude::*;
use crate::behavior::{DeviceBehavior, DeviceBehaviorOverrides, default_behavior};
use crate::encoding::Value;
use crate::model::{
    Context, ContextId, Device, DeviceId, DeviceType, DeviceTypeId, RegisterId, RegisterPoint,
    RtuTransport, TcpTransport, TransportConfig, World, context_index, first_index,
    lemma_first_index, lemma_first_index_unique, type_index,
};

verus! {

/// Why a change to the world was refused.
#[derive(Debug, Clone, Copy, PartialEq, Eq, Structural)]
pub enum WorldError {
    /// No device type with the given id.
    NotFound,
    /// The device type is still referenced by device instances.
    DeviceTypeInUse,
    /// A new device names a device type that does not exist.
    UnknownDeviceType,
    /// No context is active.
    NoActiveContext,
    /// No device with the given id in the active context.
    DeviceNotFound,
    /// No context with the given id.
    ContextNotFound,
}

impl WorldError {
    /// The text the API reports for the error.
    pub fn message(self) -> (r: &'static str)
        ensures
            r@ == match self {
                WorldError::NotFound => "not found"@,
                WorldError::DeviceTypeInUse => "device type in use by device instances"@,
                WorldError::UnknownDeviceType => "unknown device type"@,
                WorldError::NoActiveContext => "no active context"@,
                WorldError::DeviceNotFound => "device not found"@,
                WorldError::ContextNotFound => "context not found"@,
            },
    {
        match self {
            WorldError::NotFound => "not found",
            WorldError::DeviceTypeInUse => "device type in use by device instances",
            WorldError::UnknownDeviceType => "unknown device type",
            WorldError::NoActiveContext => "no active context",
            WorldError::DeviceNotFound => "device not found",
            WorldError::ContextNotFound => "context not found",
        }
    }
}

// ---------------------------------------------------------------------------
// Specification
// ---------------------------------------------------------------------------

/// Whether some device of some context is an instance of the type.
pub open spec fn type_in_use(contexts: Seq<Context>, id: DeviceTypeId) -> bool {
    exists|c: int, d: int|
        0 <= c < contexts.len() && 0 <= d < contexts[c].devices@.len()
            && #[trigger] contexts[c].devices@[d].device_type_id == id
}

/// Whether a device type with the id exists.
pub open spec fn has_type(types: Seq<DeviceType>, id: DeviceTypeId) -> bool {
    exists|i: int| 0 <= i < types.len() && #[trigger] types[i].id == id
}

/// Every device of the context names an existing device type.
pub open spec fn types_cover(types: Seq<DeviceType>, c: Context) -> bool {
    forall|d: int| 0 <= d < c.devices@.len() ==> has_type(types, #[trigger] c.devices@[d].device_type_id)
}

/// Referential integrity: every device of every context names an existing
/// device type.
pub open spec fn integrity(w: World) -> bool {
    forall|c: int| 0 <= c < w.contexts@.len() ==> types_cover(w.device_types@, #[trigger] w.contexts@[c])
}

pub open spec fn index_of_device(devices: Seq<Device>, id: DeviceId) -> Option<int> {
    first_index(devices, |d: Device| d.id == id)
}

pub open spec fn index_of_slave(devices: Seq<Device>, slave_id: u8) -> Option<int> {
    first_index(devices, |d: Device| d.slave_id == slave_id)
}

/// Indices (context, device, device type) of the device that answers a
/// slave id: the first device with that slave id in the active context and
/// the first device type with its type id.
pub open spec fn spec_resolve(w: World, slave_id: u8) -> Option<(int, int, int)> {
    match w.active_index() {
        None => None,
        Some(c) => match index_of_slave(w.contexts@[c].devices@, slave_id) {
            None => None,
            Some(d) => match type_index(w.device_types@, w.contexts@[c].devices@[d].device_type_id) {
                None => None,
                Some(t) => Some((c, d, t)),
            },
        },
    }
}

/// Whether some point of the layout has the register id.
pub open spec fn has_register(regs: Seq<RegisterPoint>, id: RegisterId) -> bool {
    exists|j: int| 0 <= j < regs.len() && #[trigger] regs[j].id == id
}

/// Two register points that agree on everything but their ids.
pub open spec fn same_point_but_id(a: RegisterPoint, b: RegisterPoint) -> bool {
    &&& a.kind == b.kind
    &&& a.address == b.address
    &&& a.name == b.name
    &&& a.description == b.description
    &&& a.data_type == b.data_type
    &&& a.encoding == b.encoding
    &&& a.byte_length == b.byte_length
    &&& a.default_value == b.default_value
}

/// The device types an exported context embeds: for each of its devices in
/// order, the first type with the device's type id, each type once.
pub open spec fn export_types(types: Seq<DeviceType>, devices: Seq<Device>) -> Seq<int>
    decreases devices.len(),
{
    if devices.len() == 0 {
        Seq::empty()
    } else {
        let prev = export_types(types, devices.drop_last());
        match type_index(types, devices.last().device_type_id) {
            Some(i) => if prev.contains(i) {
                prev
            } else {
                prev.push(i)
            },
            None => prev,
        }
    }
}

/// The types of an import bundle that get added: those whose id is neither in
/// the world nor earlier in the bundle.
pub open spec fn imported_types(existing: Seq<DeviceType>, bundle: Seq<DeviceType>) -> Seq<DeviceType>
    decreases bundle.len(),
{
    if bundle.len() == 0 {
        existing
    } else {
        let prev = imported_types(existing, bundle.drop_last());
        if has_type(prev, bundle.last().id) {
            prev
        } else {
            prev.push(bundle.last())
        }
    }
}

// ---------------------------------------------------------------------------
// Helpers
// ---------------------------------------------------------------------------

proof fn lemma_filter_step<T>(s: Seq<T>, p: spec_fn(T) -> bool, j: int)
    requires
        0 <= j < s.len(),
    ensures
        s.take(j + 1).filter(p) == if p(s[j]) {
            s.take(j).filter(p).push(s[j])
        } else {
            s.take(j).filter(p)
        },
{
    reveal(Seq::filter);
    assert(s.take(j + 1).drop_last() =~= s.take(j));
}

proof fn lemma_filter_all<T>(s: Seq<T>, p: spec_fn(T) -> bool)
    ensures
        s.take(s.len() as int) == s,
{
    assert(s.take(s.len() as int) =~= s);
}

fn drop_types(v: &mut Vec<DeviceType>, id: DeviceTypeId)
    ensures
        final(v)@ == old(v)@.filter(|t: DeviceType| t.id != id),
{
    let ghost orig = v@;
    let ghost p = |t: DeviceType| t.id != id;
    let mut i: usize = 0;
    let ghost mut j: int = 0;
    while i < v.len()
        invariant
            p == (|t: DeviceType| t.id != id),
            0 <= j <= orig.len(),
            v@ == orig.take(j).filter(p) + orig.skip(j),
            i == orig.take(j).filter(p).len(),
        decreases v@.len() - i,
    {
        let ghost before = v@;
        proof {
            lemma_filter_step(orig, p, j);
            assert(v@[i as int] == orig[j]);
            assert(orig.skip(j).drop_first() =~= orig.skip(j + 1));
        }
        if v[i].id == id {
            v.remove(i);
            proof {
                assert(!p(orig[j]));
                assert(orig.take(j + 1).filter(p) == orig.take(j).filter(p));
                assert(v@ =~= orig.take(j).filter(p) + orig.skip(j + 1));
            }
        } else {
            i = i + 1;
            proof {
                assert(p(orig[j]));
                assert(orig.take(j + 1).filter(p) == orig.take(j).filter(p).push(orig[j]));
                assert(before =~= orig.take(j).filter(p).push(orig[j]) + orig.skip(j + 1));
            }
        }
        proof {
            j = j + 1;
        }
    }
    proof {
        assert(orig.skip(j).len() == 0);
        lemma_filter_all(orig, p);
        assert(v@ =~= orig.take(j).filter(p));
    }
}

fn drop_contexts(v: &mut Vec<Context>, id: ContextId)
    ensures
        final(v)@ == old(v)@.filter(|c: Context| c.id != id),
{
    let ghost orig = v@;
    let ghost p = |c: Context| c.id != id;
    let mut i: usize = 0;
    let ghost mut j: int = 0;
    while i < v.len()
        invariant
            p == (|c: Context| c.id != id),
            0 <= j <= orig.len(),
            v@ == orig.take(j).filter(p) + orig.skip(j),
            i == orig.take(j).filter(p).len(),
        decreases v@.len() - i,
    {
        let ghost before = v@;
        proof {
            lemma_filter_step(orig, p, j);
            assert(v@[i as int] == orig[j]);
            assert(orig.skip(j).drop_first() =~= orig.skip(j + 1));
        }
        if v[i].id == id {
            v.remove(i);
            proof {
                assert(v@ =~= orig.take(j).filter(p) + orig.skip(j + 1));
            }
        } else {
            i = i + 1;
            proof {
                assert(before =~= orig.take(j).filter(p).push(orig[j]) + orig.skip(j + 1));
            }
        }
        proof {
            j = j + 1;
        }
    }
    proof {
        assert(orig.skip(j).len() == 0);
        lemma_filter_all(orig, p);
        assert(v@ =~= orig.take(j).filter(p));
    }
}

fn drop_devices(v: &mut Vec<Device>, id: DeviceId)
    ensures
        final(v)@ == old(v)@.filter(|d: Device| d.id != id),
{
    let ghost orig = v@;
    let ghost p = |d: Device| d.id != id;
    let mut i: usize = 0;
    let ghost mut j: int = 0;
    while i < v.len()
        invariant
            p == (|d: Device| d.id != id),
            0 <= j <= orig.len(),
            v@ == orig.take(j).filter(p) + orig.skip(j),
            i == orig.take(j).filter(p).len(),
        decreases v@.len() - i,
    {
        let ghost before = v@;
        proof {
            lemma_filter_step(orig, p, j);
            assert(v@[i as int] == orig[j]);
            assert(orig.skip(j).drop_first() =~= orig.skip(j + 1));
        }
        if v[i].id == id {
            v.remove(i);
            proof {
                assert(v@ =~= orig.take(j).filter(p) + orig.skip(j + 1));
            }
        } else {
            i = i + 1;
            proof {
                assert(before =~= orig.take(j).filter(p).push(orig[j]) + orig.skip(j + 1));
            }
        }
        proof {
            j = j + 1;
        }
    }
    proof {
        assert(orig.skip(j).len() == 0);
        lemma_filter_all(orig, p);
        assert(v@ =~= orig.take(j).filter(p));
    }
}

fn drop_registers(v: &mut Vec<RegisterPoint>, id: RegisterId)
    ensures
        final(v)@ == old(v)@.filter(|r: RegisterPoint| r.id != id),
{
    let ghost orig = v@;
    let ghost p = |r: RegisterPoint| r.id != id;
    let mut i: usize = 0;
    let ghost mut j: int = 0;
    while i < v.len()
        invariant
            p == (|r: RegisterPoint| r.id != id),
            0 <= j <= orig.len(),
            v@ == orig.take(j).filter(p) + orig.skip(j),
            i == orig.take(j).filter(p).len(),
        decreases v@.len() - i,
    {
        let ghost before = v@;
        proof {
            lemma_filter_step(orig, p, j);
            assert(v@[i as int] == orig[j]);
            assert(orig.skip(j).drop_first() =~= orig.skip(j + 1));
        }
        if v[i].id == id {
            v.remove(i);
            proof {
                assert(v@ =~= orig.take(j).filter(p) + orig.skip(j + 1));
            }
        } else {
            i = i + 1;
            proof {
                assert(before =~= orig.take(j).filter(p).push(orig[j]) + orig.skip(j + 1));
            }
        }
        proof {
            j = j + 1;
        }
    }
    proof {
        assert(orig.skip(j).len() == 0);
        lemma_filter_all(orig, p);
        assert(v@ =~= orig.take(j).filter(p));
    }
}

fn find_device(devices: &Vec<Device>, id: DeviceId) -> (r: Option<usize>)
    ensures
        match r {
            Some(i) => i < devices@.len() && index_of_device(devices@, id) == Some(i as int),
            None => index_of_device(devices@, id) is None,
        },
{
    proof {
        lemma_first_index(devices@, |d: Device| d.id == id);
    }
    let mut i: usize = 0;
    while i < devices.len()
        invariant
            i <= devices@.len(),
            forall|j: int| 0 <= j < i ==> devices@[j].id != id,
        decreases devices@.len() - i,
    {
        if devices[i].id == id {
            proof {
                lemma_first_index_unique(devices@, |d: Device| d.id == id, i as int);
            }
            return Some(i);
        }
        i = i + 1;
    }
    None
}

fn find_slave(devices: &Vec<Device>, slave_id: u8) -> (r: Option<usize>)
    ensures
        match r {
            Some(i) => i < devices@.len() && index_of_slave(devices@, slave_id) == Some(i as int),
            None => index_of_slave(devices@, slave_id) is None,
        },
{
    proof {
        lemma_first_index(devices@, |d: Device| d.slave_id == slave_id);
    }
    let mut i: usize = 0;
    while i < devices.len()
        invariant
            i <= devices@.len(),
            forall|j: int| 0 <= j < i ==> devices@[j].slave_id != slave_id,
        decreases devices@.len() - i,
    {
        if devices[i].slave_id == slave_id {
            proof {
                lemma_first_index_unique(devices@, |d: Device| d.slave_id == slave_id, i as int);
            }
            return Some(i);
        }
        i = i + 1;
    }
    None
}

fn find_register(regs: &Vec<RegisterPoint>, id: RegisterId) -> (r: Option<usize>)
    ensures
        match r {
            Some(i) => i < regs@.len() && first_index(regs@, |p: RegisterPoint| p.id == id) == Some(
                i as int,
            ),
            None => first_index(regs@, |p: RegisterPoint| p.id == id) is None,
        },
{
    proof {
        lemma_first_index(regs@, |p: RegisterPoint| p.id == id);
    }
    let mut i: usize = 0;
    while i < regs.len()
        invariant
            i <= regs@.len(),
            forall|j: int| 0 <= j < i ==> regs@[j].id != id,
        decreases regs@.len() - i,
    {
        if regs[i].id == id {
            proof {
                lemma_first_index_unique(regs@, |p: RegisterPoint| p.id == id, i as int);
            }
            return Some(i);
        }
        i = i + 1;
    }
    None
}

fn type_used(contexts: &Vec<Context>, id: DeviceTypeId) -> (r: bool)
    ensures
        r == type_in_use(contexts@, id),
{
    let mut c: usize = 0;
    while c < contexts.len()
        invariant
            c <= contexts@.len(),
            forall|x: int, y: int|
                0 <= x < c && 0 <= y < contexts@[x].devices@.len() ==> #[trigger] contexts@[x].devices@[y].device_type_id != id,
        decreases contexts@.len() - c,
    {
        let devs = &contexts[c].devices;
        let mut d: usize = 0;
        while d < devs.len()
            invariant
                c < contexts@.len(),
                devs == &contexts@[c as int].devices,
                d <= devs@.len(),
                forall|y: int| 0 <= y < d ==> devs@[y].device_type_id != id,
            decreases devs@.len() - d,
        {
            if devs[d].device_type_id == id {
                return true;
            }
            d = d + 1;
        }
        c = c + 1;
    }
    false
}

fn has_type_exec(types: &Vec<DeviceType>, id: DeviceTypeId) -> (r: bool)
    ensures
        r == has_type(types@, id),
{
    let mut i: usize = 0;
    while i < types.len()
        invariant
            i <= types@.len(),
            forall|j: int| 0 <= j < i ==> types@[j].id != id,
        decreases types@.len() - i,
    {
        if types[i].id == id {
            return true;
        }
        i = i + 1;
    }
    false
}

// ---------------------------------------------------------------------------
// Operations
// ---------------------------------------------------------------------------

impl World {
    /// The device that answers a slave id and its device type: the first
    /// device with that slave id in the active context, and the first device
    /// type with the device's type id.
    pub fn resolve_slave(&self, slave_id: u8) -> (r: Option<(&Device, &DeviceType)>)
        ensures
            match spec_resolve(*self, slave_id) {
                None => r is None,
                Some((c, d, t)) => r == Some(
                    (&self.contexts@[c].devices@[d], &self.device_types@[t]),
                ),
            },
    {
        let c = match self.active_context_index() {
            None => {
                return None;
            },
            Some(c) => c,
        };
        let devices = &self.contexts[c].devices;
        let d = match find_slave(devices, slave_id) {
            None => {
                return None;
            },
            Some(d) => d,
        };
        let dev = &devices[d];
        match self.device_type(dev.device_type_id) {
            None => None,
            Some(dt) => Some((dev, dt)),
        }
    }

    /// Add a new, empty device type with default behavior.
    pub fn create_device_type(&mut self, name: String, description: Option<String>) -> (r:
        DeviceTypeId)
        ensures
            final(self).device_types@.len() == old(self).device_types@.len() + 1,
            final(self).device_types@.drop_last() == old(self).device_types@,
            ({
                let t = final(self).device_types@.last();
                &&& t.id == r
                &&& t.name == name
                &&& t.description@ == match description {
                    Some(d) => d@,
                    None => Seq::<char>::empty(),
                }
                &&& t.registers@.len() == 0
                &&& t.behavior.model() == default_behavior()
            }),
            final(self).contexts == old(self).contexts,
            final(self).active_context_id == old(self).active_context_id,
            integrity(*old(self)) ==> integrity(*final(self)),
    {
        let id = DeviceTypeId::new();
        let description = match description {
            Some(d) => d,
            None => String::new(),
        };
        let dt = DeviceType {
            id,
            name,
            description,
            registers: Vec::new(),
            behavior: DeviceBehavior::default(),
        };
        self.device_types.push(dt);
        proof {
            assert(self.device_types@.drop_last() =~= old(self).device_types@);
            assert forall|i: int| 0 <= i < old(self).device_types@.len() implies has_type(
                self.device_types@,
                #[trigger] old(self).device_types@[i].id,
            ) by {
                assert(self.device_types@[i] == old(self).device_types@[i]);
            }
            self.lemma_integrity_more_types(*old(self));
        }
        id
    }

    /// Adding device types keeps the contexts' references intact.
    proof fn lemma_integrity_more_types(&self, before: World)
        requires
            self.contexts == before.contexts,
            forall|i: int|
                0 <= i < before.device_types@.len() ==> has_type(
                    self.device_types@,
                    #[trigger] before.device_types@[i].id,
                ),
        ensures
            integrity(before) ==> integrity(*self),
    {
        if integrity(before) {
            assert forall|c: int| 0 <= c < self.contexts@.len() implies types_cover(self.device_types@, #[trigger] self.contexts@[c]) by {
                let ctx = self.contexts@[c];
                assert(types_cover(before.device_types@, ctx));
                assert forall|d: int| 0 <= d < ctx.devices@.len() implies has_type(self.device_types@, #[trigger] ctx.devices@[d].device_type_id) by {
                    let tid = ctx.devices@[d].device_type_id;
                    let i = choose|i: int| 0 <= i < before.device_types@.len() && #[trigger] before.device_types@[i].id == tid;
                    assert(has_type(self.device_types@, before.device_types@[i].id));
                }
            }
        }
    }

    /// Add an imported device type under fresh ids for the type and for each
    /// of its registers.
    pub fn import_device_type(&mut self, dt: DeviceType) -> (r: DeviceTypeId)
        ensures
            final(self).device_types@.len() == old(self).device_types@.len() + 1,
            final(self).device_types@.drop_last() == old(self).device_types@,
            ({
                let t = final(self).device_types@.last();
                &&& t.id == r
                &&& t.name == dt.name
                &&& t.description == dt.description
                &&& t.behavior == dt.behavior
                &&& t.registers@.len() == dt.registers@.len()
                &&& forall|i: int| 0 <= i < dt.registers@.len() ==> same_point_but_id(
                    #[trigger] t.registers@[i],
                    dt.registers@[i],
                )
            }),
            final(self).contexts == old(self).contexts,
            final(self).active_context_id == old(self).active_context_id,
            integrity(*old(self)) ==> integrity(*final(self)),
    {
        let mut dt = dt;
        let ghost orig = dt;
        dt.id = DeviceTypeId::new();
        let mut i: usize = 0;
        while i < dt.registers.len()
            invariant
                i <= dt.registers@.len(),
                dt.registers@.len() == orig.registers@.len(),
                dt.name == orig.name,
                dt.description == orig.description,
                dt.behavior == orig.behavior,
                forall|k: int| 0 <= k < dt.registers@.len() ==> same_point_but_id(
                    #[trigger] dt.registers@[k],
                    orig.registers@[k],
                ),
            decreases dt.registers@.len() - i,
        {
            dt.registers[i].id = RegisterId::new();
            i = i + 1;
        }
        let id = dt.id;
        self.device_types.push(dt);
        proof {
            assert(self.device_types@.drop_last() =~= old(self).device_types@);
            assert forall|i: int| 0 <= i < old(self).device_types@.len() implies has_type(
                self.device_types@,
                #[trigger] old(self).device_types@[i].id,
            ) by {
                assert(self.device_types@[i] == old(self).device_types@[i]);
            }
            self.lemma_integrity_more_types(*old(self));
        }
        id
    }

    /// Delete every device type with the id, unless a device of any context
    /// is an instance of it. `Ok(true)` when a type was removed.
    pub fn delete_device_type(&mut self, id: DeviceTypeId) -> (r: Result<bool, WorldError>)
        ensures
            type_in_use(old(self).contexts@, id) ==> r == Err::<bool, WorldError>(
                WorldError::DeviceTypeInUse,
            ) && *final(self) == *old(self),
            !type_in_use(old(self).contexts@, id) ==> {
                &&& r == Ok::<bool, WorldError>(has_type(old(self).device_types@, id))
                &&& final(self).device_types@ == old(self).device_types@.filter(
                    |t: DeviceType| t.id != id,
                )
                &&& final(self).contexts == old(self).contexts
                &&& final(self).active_context_id == old(self).active_context_id
            },
            integrity(*old(self)) ==> integrity(*final(self)),
    {
        if type_used(&self.contexts, id) {
            return Err(WorldError::DeviceTypeInUse);
        }
        let existed = has_type_exec(&self.device_types, id);
        drop_types(&mut self.device_types, id);
        proof {
            let p = |t: DeviceType| t.id != id;
            let before = old(self).device_types@;
            if existed {
                let i = choose|i: int| 0 <= i < before.len() && before[i].id == id;
            }
            if integrity(*old(self)) {
                assert forall|c: int| 0 <= c < self.contexts@.len() implies types_cover(self.device_types@, #[trigger] self.contexts@[c]) by {
                    let ctx = self.contexts@[c];
                    assert(types_cover(before, ctx));
                    assert forall|d: int| 0 <= d < ctx.devices@.len() implies has_type(self.device_types@, #[trigger] ctx.devices@[d].device_type_id) by {
                        let tid = ctx.devices@[d].device_type_id;
                        assert(tid != id);
                        let i = choose|i: int| 0 <= i < before.len() && #[trigger] before[i].id == tid;
                        reveal(Seq::filter);
                        before.lemma_filter_contains(p, i);
                        let j = choose|j: int| 0 <= j < before.filter(p).len() && before.filter(p)[j] == before[i];
                        assert(self.device_types@[j].id == tid);
                    }
                }
            }
        }
        let removed = existed;
        Ok(removed)
    }

    /// Rename the first device type with the id; a given description replaces
    /// the old one.
    pub fn rename_device_type(
        &mut self,
        id: DeviceTypeId,
        name: String,
        description: Option<String>,
    ) -> (r: Result<(), WorldError>)
        ensures
            match type_index(old(self).device_types@, id) {
                None => r == Err::<(), WorldError>(WorldError::NotFound) && *final(self) == *old(self),
                Some(i) => {
                    let t = old(self).device_types@[i];
                    &&& r == Ok::<(), WorldError>(())
                    &&& final(self).device_types@ == old(self).device_types@.update(
                        i,
                        DeviceType {
                            id: t.id,
                            name: name,
                            description: match description {
                                Some(d) => d,
                                None => t.description,
                            },
                            registers: t.registers,
                            behavior: t.behavior,
                        },
                    )
                    &&& final(self).contexts == old(self).contexts
                    &&& final(self).active_context_id == old(self).active_context_id
                },
            },
            integrity(*old(self)) ==> integrity(*final(self)),
    {
        let i = match self.find_type(id) {
            None => {
                return Err(WorldError::NotFound);
            },
            Some(i) => i,
        };
        self.device_types[i].name = name;
        if let Some(d) = description {
            self.device_types[i].description = d;
        }
        proof {
            assert(self.device_types@ =~= old(self).device_types@.update(i as int, self.device_types@[i as int]));
            self.lemma_integrity_same_ids(*old(self));
        }
        Ok(())
    }

    /// Types with the same ids in the same places and the same contexts keep
    /// the contexts' references intact.
    proof fn lemma_integrity_same_ids(&self, before: World)
        requires
            self.contexts == before.contexts,
            self.device_types@.len() == before.device_types@.len(),
            forall|i: int| 0 <= i < before.device_types@.len() ==> #[trigger] self.device_types@[i].id == before.device_types@[i].id,
        ensures
            integrity(before) ==> integrity(*self),
    {
        assert forall|i: int| 0 <= i < before.device_types@.len() implies has_type(
            self.device_types@,
            #[trigger] before.device_types@[i].id,
        ) by {
            assert(self.device_types@[i].id == before.device_types@[i].id);
        }
        self.lemma_integrity_more_types(before);
    }

    /// Replace the behavior of the first device type with the id.
    pub fn update_behavior(&mut self, id: DeviceTypeId, behavior: DeviceBehavior) -> (r: Result<
        (),
        WorldError,
    >)
        ensures
            match type_index(old(self).device_types@, id) {
                None => r == Err::<(), WorldError>(WorldError::NotFound) && *final(self) == *old(self),
                Some(i) => {
                    let t = old(self).device_types@[i];
                    &&& r == Ok::<(), WorldError>(())
                    &&& final(self).device_types@ == old(self).device_types@.update(
                        i,
                        DeviceType {
                            id: t.id,
                            name: t.name,
                            description: t.description,
                            registers: t.registers,
                            behavior: behavior,
                        },
                    )
                    &&& final(self).contexts == old(self).contexts
                    &&& final(self).active_context_id == old(self).active_context_id
                },
            },
            integrity(*old(self)) ==> integrity(*final(self)),
    {
        let i = match self.find_type(id) {
            None => {
                return Err(WorldError::NotFound);
            },
            Some(i) => i,
        };
        self.device_types[i].behavior = behavior;
        proof {
            assert(self.device_types@ =~= old(self).device_types@.update(i as int, self.device_types@[i as int]));
            self.lemma_integrity_same_ids(*old(self));
        }
        Ok(())
    }

    /// In the first device type with the id, replace the first register with
    /// the point's id, or append the point when there is none.
    pub fn upsert_register(&mut self, type_id: DeviceTypeId, point: RegisterPoint) -> (r: Result<
        (),
        WorldError,
    >)
        ensures
            match type_index(old(self).device_types@, type_id) {
                None => r == Err::<(), WorldError>(WorldError::NotFound) && *final(self) == *old(self),
                Some(i) => {
                    let t = old(self).device_types@[i];
                    let regs = t.registers@;
                    &&& r == Ok::<(), WorldError>(())
                    &&& final(self).device_types@.len() == old(self).device_types@.len()
                    &&& forall|k: int| 0 <= k < old(self).device_types@.len() && k != i ==> #[trigger] final(self).device_types@[k] == old(self).device_types@[k]
                    &&& final(self).device_types@[i].id == t.id
                    &&& final(self).device_types@[i].name == t.name
                    &&& final(self).device_types@[i].description == t.description
                    &&& final(self).device_types@[i].behavior == t.behavior
                    &&& final(self).device_types@[i].registers@ == match first_index(regs, |p: RegisterPoint| p.id == point.id) {
                        Some(j) => regs.update(j, point),
                        None => regs.push(point),
                    }
                    &&& final(self).contexts == old(self).contexts
                    &&& final(self).active_context_id == old(self).active_context_id
                },
            },
            integrity(*old(self)) ==> integrity(*final(self)),
    {
        let i = match self.find_type(type_id) {
            None => {
                return Err(WorldError::NotFound);
            },
            Some(i) => i,
        };
        match find_register(&self.device_types[i].registers, point.id) {
            Some(j) => {
                self.device_types[i].registers.set(j, point);
            },
            None => {
                self.device_types[i].registers.push(point);
            },
        }
        proof {
            self.lemma_integrity_same_ids(*old(self));
        }
        Ok(())
    }

    /// Remove a register point: from the first device type that has a point
    /// with the id, every point with that id. Answers that type's id.
    pub fn delete_register(&mut self, id: RegisterId) -> (r: Option<DeviceTypeId>)
        ensures
            match first_index(old(self).device_types@, |t: DeviceType| has_register(t.registers@, id)) {
                None => r is None && *final(self) == *old(self),
                Some(i) => {
                    let t = old(self).device_types@[i];
                    &&& r == Some(t.id)
                    &&& final(self).device_types@.len() == old(self).device_types@.len()
                    &&& forall|k: int| 0 <= k < old(self).device_types@.len() && k != i ==> #[trigger] final(self).device_types@[k] == old(self).device_types@[k]
                    &&& final(self).device_types@[i].id == t.id
                    &&& final(self).device_types@[i].name == t.name
                    &&& final(self).device_types@[i].description == t.description
                    &&& final(self).device_types@[i].behavior == t.behavior
                    &&& final(self).device_types@[i].registers@ == t.registers@.filter(|p: RegisterPoint| p.id != id)
                    &&& final(self).contexts == old(self).contexts
                    &&& final(self).active_context_id == old(self).active_context_id
                },
            },
            integrity(*old(self)) ==> integrity(*final(self)),
    {
        let ghost pred = |t: DeviceType| has_register(t.registers@, id);
        proof {
            lemma_first_index(self.device_types@, pred);
        }
        let mut i: usize = 0;
        while i < self.device_types.len()
            invariant
                i <= self.device_types@.len(),
                self.device_types == old(self).device_types,
                self.contexts == old(self).contexts,
                self.active_context_id == old(self).active_context_id,
                pred == (|t: DeviceType| has_register(t.registers@, id)),
                forall|j: int| 0 <= j < i ==> !pred(self.device_types@[j]),
            decreases self.device_types@.len() - i,
        {
            if find_register(&self.device_types[i].registers, id).is_some() {
                proof {
                    lemma_first_index(self.device_types@[i as int].registers@, |p: RegisterPoint| p.id == id);
                    lemma_first_index_unique(self.device_types@, pred, i as int);
                }
                drop_registers(&mut self.device_types[i].registers, id);
                proof {
                    self.lemma_integrity_same_ids(*old(self));
                }
                return Some(self.device_types[i].id);
            }
            proof {
                lemma_first_index(self.device_types@[i as int].registers@, |p: RegisterPoint| p.id == id);
            }
            i = i + 1;
        }
        None
    }

    /// Add a device of an existing type to the active context. Refused for an
    /// unknown type, and when no context is active; when the active id names
    /// no context, nothing is added.
    pub fn create_device(&mut self, name: String, slave_id: u8, type_id: DeviceTypeId) -> (r:
        Result<DeviceId, WorldError>)
        ensures
            !has_type(old(self).device_types@, type_id) ==> r == Err::<DeviceId, WorldError>(
                WorldError::UnknownDeviceType,
            ) && *final(self) == *old(self),
            has_type(old(self).device_types@, type_id) && old(self).active_context_id is None ==> r
                == Err::<DeviceId, WorldError>(WorldError::NoActiveContext) && *final(self) == *old(self),
            has_type(old(self).device_types@, type_id) && old(self).active_context_id is Some ==> {
                &&& r is Ok
                &&& final(self).device_types == old(self).device_types
                &&& final(self).active_context_id == old(self).active_context_id
                &&& match old(self).active_index() {
                    None => final(self).contexts == old(self).contexts,
                    Some(c) => {
                        let before = old(self).contexts@[c];
                        let after = final(self).contexts@[c];
                        &&& final(self).contexts@ == old(self).contexts@.update(c, after)
                        &&& after.id == before.id
                        &&& after.name == before.name
                        &&& after.transport == before.transport
                        &&& after.devices@.drop_last() == before.devices@
                        &&& after.devices@.len() == before.devices@.len() + 1
                        &&& after.devices@.last().id == r->Ok_0
                        &&& after.devices@.last().name == name
                        &&& after.devices@.last().slave_id == slave_id
                        &&& after.devices@.last().device_type_id == type_id
                        &&& after.devices@.last().behavior_overrides is None
                        &&& after.devices@.last().register_values@ == Map::<u128, Value>::empty()
                    },
                }
            },
            integrity(*old(self)) ==> integrity(*final(self)),
    {
        if !has_type_exec(&self.device_types, type_id) {
            return Err(WorldError::UnknownDeviceType);
        }
        if self.active_context_id.is_none() {
            return Err(WorldError::NoActiveContext);
        }
        let dev = Device {
            id: DeviceId::new(),
            name,
            slave_id,
            device_type_id: type_id,
            behavior_overrides: None,
            register_values: BTreeMap::new(),
        };
        let id = dev.id;
        if let Some(c) = self.active_context_index() {
            self.contexts[c].devices.push(dev);
            proof {
                assert(self.contexts@ =~= old(self).contexts@.update(c as int, self.contexts@[c as int]));
                assert(self.contexts@[c as int].devices@.drop_last() =~= old(self).contexts@[c as int].devices@);
                if integrity(*old(self)) {
                    assert forall|k: int| 0 <= k < self.contexts@.len() implies types_cover(self.device_types@, #[trigger] self.contexts@[k]) by {
                        if k == c {
                            let after = self.contexts@[k];
                            assert(types_cover(self.device_types@, old(self).contexts@[k]));
                            assert forall|d: int| 0 <= d < after.devices@.len() implies has_type(self.device_types@, #[trigger] after.devices@[d].device_type_id) by {
                                if d < after.devices@.len() - 1 {
                                    assert(after.devices@[d] == old(self).contexts@[k].devices@[d]);
                                }
                            }
                        } else {
                            assert(self.contexts@[k] == old(self).contexts@[k]);
                        }
                    }
                }
            }
        }
        Ok(id)
    }

    /// Remove every device with the id from the active context; `true` when
    /// one was removed.
    pub fn delete_device(&mut self, id: DeviceId) -> (r: bool)
        ensures
            match old(self).active_index() {
                None => !r && *final(self) == *old(self),
                Some(c) => {
                    let before = old(self).contexts@[c];
                    let after = final(self).contexts@[c];
                    &&& r == (index_of_device(before.devices@, id) is Some)
                    &&& final(self).contexts@ == old(self).contexts@.update(c, after)
                    &&& after.id == before.id
                    &&& after.name == before.name
                    &&& after.transport == before.transport
                    &&& after.devices@ == before.devices@.filter(|d: Device| d.id != id)
                    &&& final(self).device_types == old(self).device_types
                    &&& final(self).active_context_id == old(self).active_context_id
                },
            },
            integrity(*old(self)) ==> integrity(*final(self)),
    {
        let c = match self.active_context_index() {
            None => {
                return false;
            },
            Some(c) => c,
        };
        let found = find_device(&self.contexts[c].devices, id).is_some();
        drop_devices(&mut self.contexts[c].devices, id);
        proof {
            assert(self.contexts@ =~= old(self).contexts@.update(c as int, self.contexts@[c as int]));
            if integrity(*old(self)) {
                let p = |d: Device| d.id != id;
                assert forall|k: int| 0 <= k < self.contexts@.len() implies types_cover(self.device_types@, #[trigger] self.contexts@[k]) by {
                    if k == c {
                        let before = old(self).contexts@[k].devices@;
                        let after = self.contexts@[k];
                        assert(types_cover(self.device_types@, old(self).contexts@[k]));
                        assert forall|d: int| 0 <= d < after.devices@.len() implies has_type(self.device_types@, #[trigger] after.devices@[d].device_type_id) by {
                            let x = after.devices@[d];
                            assert(before.filter(p).contains(x));
                            before.lemma_filter_contains_rev(p, x);
                            let e = choose|e: int| 0 <= e < before.len() && before[e] == x;
                            assert(has_type(self.device_types@, before[e].device_type_id));
                        }
                    } else {
                        assert(self.contexts@[k] == old(self).contexts@[k]);
                    }
                }
            }
        }
        found
    }

    /// Set a register's runtime value on the first device with the id in the
    /// active context.
    pub fn set_register_value(&mut self, device_id: DeviceId, register_id: RegisterId, value: Value) -> (r:
        Result<(), WorldError>)
        ensures
            match old(self).active_index() {
                None => r == Err::<(), WorldError>(WorldError::NoActiveContext) && *final(self) == *old(self),
                Some(c) => match index_of_device(old(self).contexts@[c].devices@, device_id) {
                    None => r == Err::<(), WorldError>(WorldError::DeviceNotFound) && *final(self) == *old(self),
                    Some(d) => {
                        let before = old(self).contexts@[c];
                        let after = final(self).contexts@[c];
                        let bd = before.devices@[d];
                        let ad = after.devices@[d];
                        &&& r == Ok::<(), WorldError>(())
                        &&& final(self).contexts@ == old(self).contexts@.update(c, after)
                        &&& after.id == before.id
                        &&& after.name == before.name
                        &&& after.transport == before.transport
                        &&& after.devices@ == before.devices@.update(d, ad)
                        &&& ad.id == bd.id
                        &&& ad.name == bd.name
                        &&& ad.slave_id == bd.slave_id
                        &&& ad.device_type_id == bd.device_type_id
                        &&& ad.behavior_overrides == bd.behavior_overrides
                        &&& ad.register_values@ == bd.register_values@.insert(register_id.0, value)
                        &&& final(self).device_types == old(self).device_types
                        &&& final(self).active_context_id == old(self).active_context_id
                    },
                },
            },
            integrity(*old(self)) ==> integrity(*final(self)),
    {
        let c = match self.active_context_index() {
            None => {
                return Err(WorldError::NoActiveContext);
            },
            Some(c) => c,
        };
        let d = match find_device(&self.contexts[c].devices, device_id) {
            None => {
                return Err(WorldError::DeviceNotFound);
            },
            Some(d) => d,
        };
        self.contexts[c].devices[d].register_values.insert(register_id.0, value);
        proof {
            assert(self.contexts@ =~= old(self).contexts@.update(c as int, self.contexts@[c as int]));
            assert(self.contexts@[c as int].devices@ =~= old(self).contexts@[c as int].devices@.update(d as int, self.contexts@[c as int].devices@[d as int]));
            self.lemma_integrity_device_update(*old(self), c as int, d as int);
        }
        Ok(())
    }

    /// Changing one device without changing its type keeps integrity.
    proof fn lemma_integrity_device_update(&self, before: World, c: int, d: int)
        requires
            self.device_types == before.device_types,
            0 <= c < before.contexts@.len(),
            0 <= d < before.contexts@[c].devices@.len(),
            self.contexts@ == before.contexts@.update(c, self.contexts@[c]),
            self.contexts@[c].devices@ == before.contexts@[c].devices@.update(d, self.contexts@[c].devices@[d]),
            self.contexts@[c].devices@[d].device_type_id == before.contexts@[c].devices@[d].device_type_id,
        ensures
            integrity(before) ==> integrity(*self),
    {
        if integrity(before) {
            assert forall|k: int| 0 <= k < self.contexts@.len() implies types_cover(self.device_types@, #[trigger] self.contexts@[k]) by {
                assert(types_cover(before.device_types@, before.contexts@[k]));
                if k == c {
                    let after = self.contexts@[k];
                    assert forall|e: int| 0 <= e < after.devices@.len() implies has_type(self.device_types@, #[trigger] after.devices@[e].device_type_id) by {
                        assert(after.devices@[e].device_type_id == before.contexts@[k].devices@[e].device_type_id);
                    }
                } else {
                    assert(self.contexts@[k] == before.contexts@[k]);
                }
            }
        }
    }

    /// Set or clear the behavior overrides of the first device with the id in
    /// the active context.
    pub fn set_behavior_overrides(&mut self, device_id: DeviceId, overrides: Option<DeviceBehaviorOverrides>) -> (r:
        Result<(), WorldError>)
        ensures
            match old(self).active_index() {
                None => r == Err::<(), WorldError>(WorldError::NoActiveContext) && *final(self) == *old(self),
                Some(c) => match index_of_device(old(self).contexts@[c].devices@, device_id) {
                    None => r == Err::<(), WorldError>(WorldError::DeviceNotFound) && *final(self) == *old(self),
                    Some(d) => {
                        let before = old(self).contexts@[c];
                        let after = final(self).contexts@[c];
                        let bd = before.devices@[d];
                        let ad = after.devices@[d];
                        &&& r == Ok::<(), WorldError>(())
                        &&& final(self).contexts@ == old(self).contexts@.update(c, after)
                        &&& after.id == before.id
                        &&& after.name == before.name
                        &&& after.transport == before.transport
                        &&& after.devices@ == before.devices@.update(d, ad)
                        &&& ad.id == bd.id
                        &&& ad.name == bd.name
                        &&& ad.slave_id == bd.slave_id
                        &&& ad.device_type_id == bd.device_type_id
                        &&& ad.behavior_overrides == overrides
                        &&& ad.register_values == bd.register_values
                        &&& final(self).device_types == old(self).device_types
                        &&& final(self).active_context_id == old(self).active_context_id
                    },
                },
            },
            integrity(*old(self)) ==> integrity(*final(self)),
    {
        let c = match self.active_context_index() {
            None => {
                return Err(WorldError::NoActiveContext);
            },
            Some(c) => c,
        };
        let d = match find_device(&self.contexts[c].devices, device_id) {
            None => {
                return Err(WorldError::DeviceNotFound);
            },
            Some(d) => d,
        };
        self.contexts[c].devices[d].behavior_overrides = overrides;
        proof {
            assert(self.contexts@ =~= old(self).contexts@.update(c as int, self.contexts@[c as int]));
            assert(self.contexts@[c as int].devices@ =~= old(self).contexts@[c as int].devices@.update(d as int, self.contexts@[c as int].devices@[d as int]));
            self.lemma_integrity_device_update(*old(self), c as int, d as int);
        }
        Ok(())
    }

    /// Replace the runtime values of the first device with the id in the
    /// active context (how the transports store what a write request did).
    pub fn set_device_register_values(&mut self, device_id: DeviceId, values: BTreeMap<u128, Value>) -> (r: bool)
        ensures
            match old(self).active_index() {
                None => !r && *final(self) == *old(self),
                Some(c) => match index_of_device(old(self).contexts@[c].devices@, device_id) {
                    None => !r && *final(self) == *old(self),
                    Some(d) => {
                        let before = old(self).contexts@[c];
                        let after = final(self).contexts@[c];
                        let bd = before.devices@[d];
                        let ad = after.devices@[d];
                        &&& r
                        &&& final(self).contexts@ == old(self).contexts@.update(c, after)
                        &&& after.id == before.id
                        &&& after.name == before.name
                        &&& after.transport == before.transport
                        &&& after.devices@ == before.devices@.update(d, ad)
                        &&& ad.id == bd.id
                        &&& ad.name == bd.name
                        &&& ad.slave_id == bd.slave_id
                        &&& ad.device_type_id == bd.device_type_id
                        &&& ad.behavior_overrides == bd.behavior_overrides
                        &&& ad.register_values == values
                        &&& final(self).device_types == old(self).device_types
                        &&& final(self).active_context_id == old(self).active_context_id
                    },
                },
            },
            integrity(*old(self)) ==> integrity(*final(self)),
    {
        let c = match self.active_context_index() {
            None => {
                return false;
            },
            Some(c) => c,
        };
        let d = match find_device(&self.contexts[c].devices, device_id) {
            None => {
                return false;
            },
            Some(d) => d,
        };
        self.contexts[c].devices[d].register_values = values;
        proof {
            assert(self.contexts@ =~= old(self).contexts@.update(c as int, self.contexts@[c as int]));
            assert(self.contexts@[c as int].devices@ =~= old(self).contexts@[c as int].devices@.update(d as int, self.contexts@[c as int].devices@[d as int]));
            self.lemma_integrity_device_update(*old(self), c as int, d as int);
        }
        true
    }

    /// Add an empty context with default transports; it becomes the active
    /// one when none is active.
    pub fn create_context(&mut self, name: String) -> (r: ContextId)
        ensures
            final(self).contexts@.len() == old(self).contexts@.len() + 1,
            final(self).contexts@.drop_last() == old(self).contexts@,
            ({
                let c = final(self).contexts@.last();
                &&& c.id == r
                &&& c.name == name
                &&& c.devices@.len() == 0
                &&& !c.transport.tcp.enabled
                &&& !c.transport.rtu.enabled
            }),
            final(self).active_context_id == match old(self).active_context_id {
                Some(a) => Some(a),
                None => Some(r),
            },
            final(self).device_types == old(self).device_types,
            integrity(*old(self)) ==> integrity(*final(self)),
    {
        let id = ContextId::new();
        let c = Context { id, name, devices: Vec::new(), transport: TransportConfig::default() };
        self.contexts.push(c);
        if self.active_context_id.is_none() {
            self.active_context_id = Some(id);
        }
        proof {
            assert(self.contexts@.drop_last() =~= old(self).contexts@);
            if integrity(*old(self)) {
                assert forall|k: int| 0 <= k < self.contexts@.len() implies types_cover(self.device_types@, #[trigger] self.contexts@[k]) by {
                    if k < old(self).contexts@.len() {
                        assert(self.contexts@[k] == old(self).contexts@[k]);
                    }
                }
            }
        }
        id
    }

    /// Make the context with the id the active one.
    pub fn switch_context(&mut self, id: ContextId) -> (r: Result<(), WorldError>)
        ensures
            context_index(old(self).contexts@, id) is None ==> r == Err::<(), WorldError>(
                WorldError::ContextNotFound,
            ) && *final(self) == *old(self),
            context_index(old(self).contexts@, id) is Some ==> {
                &&& r == Ok::<(), WorldError>(())
                &&& final(self).active_context_id == Some(id)
                &&& final(self).contexts == old(self).contexts
                &&& final(self).device_types == old(self).device_types
            },
            integrity(*old(self)) ==> integrity(*final(self)),
    {
        if self.find_context(id).is_none() {
            return Err(WorldError::ContextNotFound);
        }
        self.active_context_id = Some(id);
        Ok(())
    }

    /// Remove every context with the id. When it was the active one, the
    /// first remaining context (if any) becomes active. `true` when one was
    /// removed.
    pub fn delete_context(&mut self, id: ContextId) -> (r: bool)
        ensures
            r == (context_index(old(self).contexts@, id) is Some),
            final(self).contexts@ == old(self).contexts@.filter(|c: Context| c.id != id),
            final(self).active_context_id == if old(self).active_context_id == Some(id) {
                if final(self).contexts@.len() > 0 {
                    Some(final(self).contexts@[0].id)
                } else {
                    None
                }
            } else {
                old(self).active_context_id
            },
            final(self).device_types == old(self).device_types,
            integrity(*old(self)) ==> integrity(*final(self)),
    {
        let existed = self.find_context(id).is_some();
        drop_contexts(&mut self.contexts, id);
        if self.active_context_id == Some(id) {
            self.active_context_id = if self.contexts.len() > 0 {
                Some(self.contexts[0].id)
            } else {
                None
            };
        }
        proof {
            if integrity(*old(self)) {
                let p = |c: Context| c.id != id;
                assert forall|k: int| 0 <= k < self.contexts@.len() implies types_cover(self.device_types@, #[trigger] self.contexts@[k]) by {
                    let x = self.contexts@[k];
                    assert(old(self).contexts@.filter(p).contains(x));
                    old(self).contexts@.lemma_filter_contains_rev(p, x);
                    let e = choose|e: int| 0 <= e < old(self).contexts@.len() && old(self).contexts@[e] == x;
                    assert(types_cover(self.device_types@, old(self).contexts@[e]));
                }
            }
        }
        existed
    }

    /// Replace the TCP settings of the active context. The port is the low
    /// 16 bits of the given number.
    pub fn configure_tcp(&mut self, enabled: bool, bind: String, port: i32) -> (r: Result<(), WorldError>)
        ensures
            match old(self).active_index() {
                None => r == Err::<(), WorldError>(WorldError::NoActiveContext) && *final(self) == *old(self),
                Some(c) => {
                    let before = old(self).contexts@[c];
                    let after = final(self).contexts@[c];
                    &&& r == Ok::<(), WorldError>(())
                    &&& final(self).contexts@ == old(self).contexts@.update(c, after)
                    &&& after.id == before.id
                    &&& after.name == before.name
                    &&& after.devices == before.devices
                    &&& after.transport.rtu == before.transport.rtu
                    &&& after.transport.tcp.enabled == enabled
                    &&& after.transport.tcp.bind == bind
                    &&& after.transport.tcp.port == port as u16
                    &&& final(self).device_types == old(self).device_types
                    &&& final(self).active_context_id == old(self).active_context_id
                },
            },
            integrity(*old(self)) ==> integrity(*final(self)),
    {
        let c = match self.active_context_index() {
            None => {
                return Err(WorldError::NoActiveContext);
            },
            Some(c) => c,
        };
        self.contexts[c].transport.tcp = TcpTransport { enabled, bind, port: port as u16 };
        proof {
            assert(self.contexts@ =~= old(self).contexts@.update(c as int, self.contexts@[c as int]));
            self.lemma_integrity_same_devices(*old(self));
        }
        Ok(())
    }

    /// Changing contexts without changing their devices keeps integrity.
    proof fn lemma_integrity_same_devices(&self, before: World)
        requires
            self.device_types == before.device_types,
            self.contexts@.len() == before.contexts@.len(),
            forall|k: int| 0 <= k < self.contexts@.len() ==> #[trigger] self.contexts@[k].devices == before.contexts@[k].devices,
        ensures
            integrity(before) ==> integrity(*self),
    {
        if integrity(before) {
            assert forall|k: int| 0 <= k < self.contexts@.len() implies types_cover(self.device_types@, #[trigger] self.contexts@[k]) by {
                assert(types_cover(self.device_types@, before.contexts@[k]));
                assert(self.contexts@[k].devices == before.contexts@[k].devices);
            }
        }
    }

    /// Replace the RTU settings of the active context. A negative baud rate
    /// counts as 0; data bits are clamped to 5..=8 and stop bits to 1..=2.
    pub fn configure_rtu(
        &mut self,
        enabled: bool,
        device: String,
        baud_rate: i32,
        parity: String,
        data_bits: i32,
        stop_bits: i32,
        virtual_serial_id: Option<String>,
    ) -> (r: Result<(), WorldError>)
        ensures
            match old(self).active_index() {
                None => r == Err::<(), WorldError>(WorldError::NoActiveContext) && *final(self) == *old(self),
                Some(c) => {
                    let before = old(self).contexts@[c];
                    let after = final(self).contexts@[c];
                    let rtu = after.transport.rtu;
                    &&& r == Ok::<(), WorldError>(())
                    &&& final(self).contexts@ == old(self).contexts@.update(c, after)
                    &&& after.id == before.id
                    &&& after.name == before.name
                    &&& after.devices == before.devices
                    &&& after.transport.tcp == before.transport.tcp
                    &&& rtu.enabled == enabled
                    &&& rtu.device == device
                    &&& rtu.baud_rate == (if baud_rate < 0 { 0 } else { baud_rate as u32 })
                    &&& rtu.parity == parity
                    &&& rtu.data_bits == (if data_bits < 5 { 5 } else if data_bits > 8 { 8 } else { data_bits as u8 })
                    &&& rtu.stop_bits == (if stop_bits < 1 { 1 } else if stop_bits > 2 { 2 } else { stop_bits as u8 })
                    &&& rtu.virtual_serial_id == virtual_serial_id
                    &&& final(self).device_types == old(self).device_types
                    &&& final(self).active_context_id == old(self).active_context_id
                },
            },
            integrity(*old(self)) ==> integrity(*final(self)),
    {
        let c = match self.active_context_index() {
            None => {
                return Err(WorldError::NoActiveContext);
            },
            Some(c) => c,
        };
        let baud: u32 = if baud_rate < 0 { 0 } else { baud_rate as u32 };
        let db: u8 = if data_bits < 5 { 5 } else if data_bits > 8 { 8 } else { data_bits as u8 };
        let sb: u8 = if stop_bits < 1 { 1 } else if stop_bits > 2 { 2 } else { stop_bits as u8 };
        self.contexts[c].transport.rtu = RtuTransport {
            enabled,
            device,
            baud_rate: baud,
            parity,
            data_bits: db,
            stop_bits: sb,
            virtual_serial_id,
        };
        proof {
            assert(self.contexts@ =~= old(self).contexts@.update(c as int, self.contexts@[c as int]));
            self.lemma_integrity_same_devices(*old(self));
        }
        Ok(())
    }

    /// What an export of the context with the id holds: the context's index
    /// and the indices of the device types its devices use, each once, in the
    /// order of first use.
    pub fn export_context(&self, id: ContextId) -> (r: Result<(usize, Vec<usize>), WorldError>)
        ensures
            match context_index(self.contexts@, id) {
                None => r == Err::<(usize, Vec<usize>), WorldError>(WorldError::NotFound),
                Some(c) => r matches Ok((k, ts)) && k == c && ts@.map_values(|i: usize| i as int)
                    == export_types(self.device_types@, self.contexts@[c].devices@),
            },
            r matches Ok((k, ts)) ==> forall|j: int| 0 <= j < ts@.len() ==> #[trigger] ts@[j] < self.device_types@.len(),
            r matches Ok((k, ts)) ==> integrity(*self) ==> {
                let chosen = ts@.map_values(|i: usize| self.device_types@[i as int]);
                &&& types_cover(chosen, self.contexts@[k as int])
                &&& forall|a: int, b: int| 0 <= a < b < ts@.len() ==> #[trigger] ts@[a] != #[trigger] ts@[b]
            },
    {
        let c = match self.find_context(id) {
            None => {
                return Err(WorldError::NotFound);
            },
            Some(c) => c,
        };
        let devices = &self.contexts[c].devices;
        let mut out: Vec<usize> = Vec::new();
        let mut i: usize = 0;
        while i < devices.len()
            invariant
                i <= devices@.len(),
                c < self.contexts@.len(),
                devices == &self.contexts@[c as int].devices,
                out@.map_values(|x: usize| x as int) == export_types(self.device_types@, devices@.take(i as int)),
                forall|j: int| 0 <= j < out@.len() ==> #[trigger] out@[j] < self.device_types@.len(),
            decreases devices@.len() - i,
        {
            proof {
                assert(devices@.take(i as int + 1).drop_last() =~= devices@.take(i as int));
                lemma_first_index(self.device_types@, |t: DeviceType| t.id == devices@[i as int].device_type_id);
            }
            match self.find_type(devices[i].device_type_id) {
                None => {},
                Some(t) => {
                    push_unique(&mut out, t);
                },
            }
            i = i + 1;
        }
        proof {
            assert(devices@.take(devices@.len() as int) =~= devices@);
            let m = out@.map_values(|x: usize| x as int);
            lemma_export_types(self.device_types@, devices@);
            assert forall|a: int, b: int| 0 <= a < b < out@.len() implies #[trigger] out@[a] != #[trigger] out@[b] by {
                assert(m[a] == out@[a] as int);
                assert(m[b] == out@[b] as int);
            }
            if integrity(*self) {
                let chosen = out@.map_values(|x: usize| self.device_types@[x as int]);
                assert(types_cover(self.device_types@, self.contexts@[c as int]));
                assert forall|d: int| 0 <= d < devices@.len() implies has_type(chosen, #[trigger] devices@[d].device_type_id) by {
                    let j = choose|j: int| 0 <= j < m.len() && self.device_types@[#[trigger] m[j]].id == devices@[d].device_type_id;
                    assert(chosen[j].id == devices@[d].device_type_id);
                }
            }
        }
        Ok((c, out))
    }

    /// Import a context bundle: the context joins under a fresh id (not made
    /// active), and each bundled device type is added unless a type with its
    /// id already exists (in the world or earlier in the bundle).
    pub fn import_context(&mut self, types: Vec<DeviceType>, context: Context) -> (r: ContextId)
        ensures
            final(self).device_types@ == imported_types(old(self).device_types@, types@),
            final(self).contexts@.len() == old(self).contexts@.len() + 1,
            final(self).contexts@.drop_last() == old(self).contexts@,
            ({
                let c = final(self).contexts@.last();
                &&& c.id == r
                &&& c.name == context.name
                &&& c.devices == context.devices
                &&& c.transport == context.transport
            }),
            final(self).active_context_id == old(self).active_context_id,
            integrity(*old(self)) && types_cover(old(self).device_types@ + types@, context)
                ==> integrity(*final(self)),
    {
        let mut context = context;
        context.id = ContextId::new();
        let id = context.id;
        let mut rest = types;
        let ghost bundle = rest@;
        let ghost mut k: int = 0;
        while rest.len() > 0
            invariant
                0 <= k <= bundle.len(),
                rest@ == bundle.skip(k),
                self.device_types@ == imported_types(old(self).device_types@, bundle.take(k)),
                self.contexts == old(self).contexts,
                self.active_context_id == old(self).active_context_id,
            decreases rest@.len(),
        {
            let t = rest.remove(0);
            proof {
                assert(bundle.take(k + 1).drop_last() =~= bundle.take(k));
                assert(t == bundle[k]);
            }
            if !has_type_exec(&self.device_types, t.id) {
                self.device_types.push(t);
            }
            proof {
                k = k + 1;
                assert(rest@ =~= bundle.skip(k));
            }
        }
        proof {
            assert(bundle.take(k) =~= bundle);
        }
        self.contexts.push(context);
        proof {
            assert(self.contexts@.drop_last() =~= old(self).contexts@);
            lemma_imported_types_has(old(self).device_types@, bundle);
            if integrity(*old(self)) && types_cover(old(self).device_types@ + bundle, self.contexts@.last()) {
                assert forall|c: int| 0 <= c < self.contexts@.len() implies types_cover(self.device_types@, #[trigger] self.contexts@[c]) by {
                    let ctx = self.contexts@[c];
                    if c < old(self).contexts@.len() {
                        assert(ctx == old(self).contexts@[c]);
                        assert(types_cover(old(self).device_types@, ctx));
                    }
                    assert forall|d: int| 0 <= d < ctx.devices@.len() implies has_type(self.device_types@, #[trigger] ctx.devices@[d].device_type_id) by {
                        let tid = ctx.devices@[d].device_type_id;
                        if c < old(self).contexts@.len() {
                            assert(has_type(old(self).device_types@, tid));
                            let i = choose|i: int| 0 <= i < old(self).device_types@.len() && #[trigger] old(self).device_types@[i].id == tid;
                            assert((old(self).device_types@ + bundle)[i].id == tid);
                        } else {
                            assert(has_type(old(self).device_types@ + bundle, tid));
                        }
                    }
                }
            }
        }
        id
    }
}

fn push_unique(out: &mut Vec<usize>, t: usize)
    ensures
        final(out)@.map_values(|x: usize| x as int) == if old(out)@.map_values(|x: usize| x as int).contains(t as int) {
            old(out)@.map_values(|x: usize| x as int)
        } else {
            old(out)@.map_values(|x: usize| x as int).push(t as int)
        },
        forall|j: int| 0 <= j < final(out)@.len() ==> #[trigger] final(out)@[j] == t || exists|k: int| 0 <= k < old(out)@.len() && old(out)@[k] == final(out)@[j],
        final(out)@.len() >= old(out)@.len(),
        forall|j: int| 0 <= j < old(out)@.len() ==> final(out)@[j] == #[trigger] old(out)@[j],
{
    let ghost prev = out@;
    let mut seen = false;
    let mut k: usize = 0;
    while k < out.len()
        invariant
            k <= out@.len(),
            out@ == prev,
            seen == exists|j: int| 0 <= j < k && out@[j] == t,
        decreases out@.len() - k,
    {
        if out[k] == t {
            seen = true;
        }
        k = k + 1;
    }
    proof {
        let m = prev.map_values(|x: usize| x as int);
        assert(m.contains(t as int) == seen) by {
            if seen {
                let j = choose|j: int| 0 <= j < prev.len() && prev[j] == t;
                assert(m[j] == t as int);
            }
            if m.contains(t as int) {
                let j = choose|j: int| 0 <= j < m.len() && m[j] == t as int;
                assert(prev[j] == t);
            }
        }
    }
    if !seen {
        out.push(t);
        proof {
            assert(out@.map_values(|x: usize| x as int) =~= prev.map_values(|x: usize| x as int).push(t as int));
        }
    }
}

/// The exported type list has no repeats, names only existing indices, and
/// covers every device whose type exists.
proof fn lemma_export_types(types: Seq<DeviceType>, devices: Seq<Device>)
    ensures
        forall|a: int, b: int| 0 <= a < b < export_types(types, devices).len() ==> #[trigger] export_types(types, devices)[a] != #[trigger] export_types(types, devices)[b],
        forall|d: int| 0 <= d < devices.len() && has_type(types, #[trigger] devices[d].device_type_id) ==> exists|j: int| 0 <= j < export_types(types, devices).len() && types[#[trigger] export_types(types, devices)[j]].id == devices[d].device_type_id,
    decreases devices.len(),
{
    if devices.len() > 0 {
        let rest = devices.drop_last();
        lemma_export_types(types, rest);
        let prev = export_types(types, rest);
        let now = export_types(types, devices);
        let tid = devices.last().device_type_id;
        lemma_first_index(types, |t: DeviceType| t.id == tid);
        assert forall|d: int| 0 <= d < devices.len() && has_type(types, #[trigger] devices[d].device_type_id) implies exists|j: int| 0 <= j < now.len() && types[#[trigger] now[j]].id == devices[d].device_type_id by {
            if d < rest.len() {
                assert(rest[d] == devices[d]);
                let j = choose|j: int| 0 <= j < prev.len() && types[#[trigger] prev[j]].id == rest[d].device_type_id;
                assert(now[j] == prev[j]);
            } else {
                let i = type_index(types, tid)->0;
                let w = choose|w: int| 0 <= w < types.len() && #[trigger] types[w].id == tid;
                if prev.contains(i) {
                    let j = choose|j: int| 0 <= j < prev.len() && prev[j] == i;
                    assert(now[j] == i);
                } else {
                    assert(now[now.len() - 1] == i);
                }
            }
        }
    }
}

/// Every id that the world or the bundle has, the imported type list has.
proof fn lemma_imported_types_has(existing: Seq<DeviceType>, bundle: Seq<DeviceType>)
    ensures
        forall|id: DeviceTypeId| has_type(existing + bundle, id) ==> has_type(imported_types(existing, bundle), id),
    decreases bundle.len(),
{
    if bundle.len() > 0 {
        let rest = bundle.drop_last();
        lemma_imported_types_has(existing, rest);
        let prev = imported_types(existing, rest);
        let now = imported_types(existing, bundle);
        assert forall|id: DeviceTypeId| has_type(existing + bundle, id) implies has_type(now, id) by {
            let i = choose|i: int| 0 <= i < (existing + bundle).len() && #[trigger] (existing + bundle)[i].id == id;
            if i < (existing + rest).len() {
                assert((existing + rest)[i] == (existing + bundle)[i]);
                assert(has_type(existing + rest, id));
                assert(has_type(prev, id));
                let j = choose|j: int| 0 <= j < prev.len() && #[trigger] prev[j].id == id;
                if !has_type(prev, bundle.last().id) {
                    assert(now[j] == prev[j]);
                }
            } else {
                assert(bundle.last().id == id);
                if !has_type(prev, bundle.last().id) {
                    assert(now[now.len() - 1].id == id);
                }
            }
        }
    }
}

/// Two sequences whose elements agree on a predicate, position by
/// position, have the same first match.
proof fn lemma_first_index_agree<T, U>(s1: Seq<T>, p1: spec_fn(T) -> bool, s2: Seq<U>, p2: spec_fn(U) -> bool)
    requires
        s1.len() == s2.len(),
        forall|k: int| 0 <= k < s1.len() ==> p1(#[trigger] s1[k]) == p2(s2[k]),
    ensures
        first_index(s1, p1) == first_index(s2, p2),
{
    lemma_first_index(s1, p1);
    lemma_first_index(s2, p2);
    match first_index(s1, p1) {
        Some(i) => {
            assert forall|j: int| 0 <= j < i implies !p2(s2[j]) by {
                assert(p1(s1[j]) == p2(s2[j]));
            }
            assert(p1(s1[i]) == p2(s2[i]));
            lemma_first_index_unique(s2, p2, i);
        },
        None => {
            if let Some(j) = first_index(s2, p2) {
                assert(p1(s1[j]) == p2(s2[j]));
            }
        },
    }
}

/// A change to device types reaches every device instance: which device
/// and which type entry a slave id resolves to depends only on the
/// contexts and on the device types' ids, so a change that keeps those
/// (editing a type's layout, behavior or name) leaves every device bound
/// to the same, now changed, entry.
pub proof fn law_type_changes_reach_instances(before: World, after: World, slave_id: u8)
    requires
        after.contexts == before.contexts,
        after.active_context_id == before.active_context_id,
        after.device_types@.len() == before.device_types@.len(),
        forall|k: int|
            0 <= k < before.device_types@.len() ==> #[trigger] after.device_types@[k].id
                == before.device_types@[k].id,
    ensures
        spec_resolve(after, slave_id) == spec_resolve(before, slave_id),
{
    if let Some(c) = before.active_index() {
        if let Some(d) = index_of_slave(before.contexts@[c].devices@, slave_id) {
            let id = before.contexts@[c].devices@[d].device_type_id;
            let p = |t: DeviceType| t.id == id;
            assert forall|k: int| 0 <= k < before.device_types@.len() implies p(
                #[trigger] before.device_types@[k],
            ) == p(after.device_types@[k]) by {
                assert(after.device_types@[k].id == before.device_types@[k].id);
            }
            lemma_first_index_agree(before.device_types@, p, after.device_types@, p);
            assert(type_index(before.device_types@, id) == type_index(after.device_types@, id));
        }
    }
}

proof fn lemma_export_valid(types: Seq<DeviceType>, devices: Seq<Device>)
    ensures
        forall|k: int|
            0 <= k < export_types(types, devices).len() ==> 0 <= #[trigger] export_types(types, devices)[k]
                < types.len(),
    decreases devices.len(),
{
    if devices.len() > 0 {
        let rest = devices.drop_last();
        lemma_export_valid(types, rest);
        let tid = devices.last().device_type_id;
        lemma_first_index(types, |t: DeviceType| t.id == tid);
        let prev = export_types(types, rest);
        let now = export_types(types, devices);
        assert forall|k: int| 0 <= k < now.len() implies 0 <= #[trigger] now[k] < types.len() by {
            if k < prev.len() {
                assert(now[k] == prev[k]);
            }
        }
    }
}

proof fn lemma_imported_none(existing: Seq<DeviceType>, bundle: Seq<DeviceType>)
    requires
        forall|k: int| 0 <= k < bundle.len() ==> has_type(existing, #[trigger] bundle[k].id),
    ensures
        imported_types(existing, bundle) == existing,
    decreases bundle.len(),
{
    if bundle.len() > 0 {
        let rest = bundle.drop_last();
        assert forall|k: int| 0 <= k < rest.len() implies has_type(existing, #[trigger] rest[k].id) by {
            assert(rest[k] == bundle[k]);
        }
        lemma_imported_none(existing, rest);
        assert(has_type(existing, bundle[bundle.len() - 1].id));
    }
}

/// The device types of an export bundle: those at the exported indices.
pub open spec fn bundle_types(w: World, c: int) -> Seq<DeviceType> {
    export_types(w.device_types@, w.contexts@[c].devices@).map_values(|i: int| w.device_types@[i])
}

/// Exporting a context and importing the bundle back into the same world
/// duplicates no device type (every exported type is there already), and
/// the imported context's devices all name existing types, so the import
/// keeps the world's referential integrity.
pub proof fn law_export_import_roundtrip(w: World, c: int)
    requires
        0 <= c < w.contexts@.len(),
        integrity(w),
    ensures
        imported_types(w.device_types@, bundle_types(w, c)) == w.device_types@,
        types_cover(w.device_types@ + bundle_types(w, c), w.contexts@[c]),
{
    let types = w.device_types@;
    let bundle = bundle_types(w, c);
    lemma_export_valid(types, w.contexts@[c].devices@);
    assert forall|k: int| 0 <= k < bundle.len() implies has_type(types, #[trigger] bundle[k].id) by {
        let i = export_types(types, w.contexts@[c].devices@)[k];
        assert(0 <= i < types.len());
        assert(bundle[k] == types[i]);
    }
    lemma_imported_none(types, bundle);
    let ctx = w.contexts@[c];
    assert(types_cover(types, ctx));
    assert forall|d: int| 0 <= d < ctx.devices@.len() implies has_type(
        types + bundle,
        #[trigger] ctx.devices@[d].device_type_id,
    ) by {
        let id = ctx.devices@[d].device_type_id;
        assert(has_type(types, id));
        let i = choose|i: int| 0 <= i < types.len() && #[trigger] types[i].id == id;
        assert((types + bundle)[i] == types[i]);
    }
}

} // verus!
