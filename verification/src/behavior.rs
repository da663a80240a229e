//! Device behavior configuration and the merge of per-device overrides.

use vstd::prelude::*;

verus! {

/// How the simulator responds when a request touches non-existent registers.
#[derive(Debug, Clone, Copy, PartialEq, Eq, Structural)]
pub enum MissingBlockBehavior {
    IllegalDataAddress,
    IllegalFunction,
    SlaveDeviceFailure,
    /// Do not respond at all.
    Timeout,
    /// Return zeros for the missing parts (the block succeeds).
    ZeroFill,
}

impl Default for MissingBlockBehavior {
    fn default() -> (r: Self)
        ensures
            r == MissingBlockBehavior::IllegalDataAddress,
    {
        MissingBlockBehavior::IllegalDataAddress
    }
}

/// Behavior of a device type: which function codes it refuses, how many
/// registers one request may touch, how it answers requests for missing
/// registers and how long it waits before answering.
#[derive(Debug, Clone, PartialEq, Eq)]
pub struct DeviceBehavior {
    /// Modbus function codes (e.g. 3, 4, 6, 16) that this device does NOT support.
    pub disabled_function_codes: Vec<u8>,
    /// Maximum number of registers/coils per request. `None` = unlimited.
    pub max_registers_per_request: Option<u16>,
    /// Behavior when no register of the requested block exists.
    pub missing_full_block: MissingBlockBehavior,
    /// Behavior when the block partially overlaps existing registers.
    pub missing_partial_block: MissingBlockBehavior,
    /// Artificial response delay in milliseconds.
    pub response_delay_ms: u32,
}

impl Default for DeviceBehavior {
    fn default() -> (r: Self)
        ensures
            r.model() == default_behavior(),
    {
        let r = DeviceBehavior {
            disabled_function_codes: Vec::new(),
            max_registers_per_request: None,
            missing_full_block: MissingBlockBehavior::IllegalDataAddress,
            missing_partial_block: MissingBlockBehavior::IllegalDataAddress,
            response_delay_ms: 0,
        };
        assert(r.model().disabled_function_codes =~= Seq::<u8>::empty());
        r
    }
}

/// Per-instance overrides. `None` fields inherit from the device type.
#[derive(Debug, Clone, PartialEq, Eq)]
pub struct DeviceBehaviorOverrides {
    pub disabled_function_codes: Option<Vec<u8>>,
    /// `Some(None)` clears the limit, `Some(Some(n))` sets it.
    pub max_registers_per_request: Option<Option<u16>>,
    pub missing_full_block: Option<MissingBlockBehavior>,
    pub missing_partial_block: Option<MissingBlockBehavior>,
    pub response_delay_ms: Option<u32>,
}

impl Default for DeviceBehaviorOverrides {
    fn default() -> (r: Self)
        ensures
            r.disabled_function_codes is None,
            r.max_registers_per_request is None,
            r.missing_full_block is None,
            r.missing_partial_block is None,
            r.response_delay_ms is None,
    {
        DeviceBehaviorOverrides {
            disabled_function_codes: None,
            max_registers_per_request: None,
            missing_full_block: None,
            missing_partial_block: None,
            response_delay_ms: None,
        }
    }
}

/// The mathematical content of a behavior: the same fields, with the list of
/// disabled function codes as a sequence.
pub struct BehaviorModel {
    pub disabled_function_codes: Seq<u8>,
    pub max_registers_per_request: Option<u16>,
    pub missing_full_block: MissingBlockBehavior,
    pub missing_partial_block: MissingBlockBehavior,
    pub response_delay_ms: u32,
}

/// The behavior of a new device type: nothing disabled, no register limit,
/// illegal data address for missing blocks, no delay.
pub open spec fn default_behavior() -> BehaviorModel {
    BehaviorModel {
        disabled_function_codes: Seq::empty(),
        max_registers_per_request: None,
        missing_full_block: MissingBlockBehavior::IllegalDataAddress,
        missing_partial_block: MissingBlockBehavior::IllegalDataAddress,
        response_delay_ms: 0,
    }
}

impl DeviceBehavior {
    pub open spec fn model(&self) -> BehaviorModel {
        BehaviorModel {
            disabled_function_codes: self.disabled_function_codes@,
            max_registers_per_request: self.max_registers_per_request,
            missing_full_block: self.missing_full_block,
            missing_partial_block: self.missing_partial_block,
            response_delay_ms: self.response_delay_ms,
        }
    }
}

/// The behavior that results from laying `overrides` over `base`: every field
/// that the overrides set replaces the base's, every other field is kept.
pub open spec fn merged_behavior(
    base: BehaviorModel,
    overrides: Option<DeviceBehaviorOverrides>,
) -> BehaviorModel {
    match overrides {
        None => base,
        Some(o) => BehaviorModel {
            disabled_function_codes: match o.disabled_function_codes {
                Some(v) => v@,
                None => base.disabled_function_codes,
            },
            max_registers_per_request: match o.max_registers_per_request {
                Some(v) => v,
                None => base.max_registers_per_request,
            },
            missing_full_block: match o.missing_full_block {
                Some(v) => v,
                None => base.missing_full_block,
            },
            missing_partial_block: match o.missing_partial_block {
                Some(v) => v,
                None => base.missing_partial_block,
            },
            response_delay_ms: match o.response_delay_ms {
                Some(v) => v,
                None => base.response_delay_ms,
            },
        },
    }
}

fn copy_codes(v: &Vec<u8>) -> (r: Vec<u8>)
    ensures
        r@ == v@,
{
    let r = v.clone();
    assert(r@ =~= v@);
    r
}

/// Merge overrides on top of a base behavior.
pub fn effective_behavior(
    base: &DeviceBehavior,
    overrides: Option<&DeviceBehaviorOverrides>,
) -> (r: DeviceBehavior)
    ensures
        r.model() == merged_behavior(
            base.model(),
            match overrides {
                Some(o) => Some(*o),
                None => None,
            },
        ),
{
    let mut out = DeviceBehavior {
        disabled_function_codes: copy_codes(&base.disabled_function_codes),
        max_registers_per_request: base.max_registers_per_request,
        missing_full_block: base.missing_full_block,
        missing_partial_block: base.missing_partial_block,
        response_delay_ms: base.response_delay_ms,
    };
    let o = match overrides {
        None => {
            return out;
        },
        Some(o) => o,
    };
    if let Some(v) = &o.disabled_function_codes {
        out.disabled_function_codes = copy_codes(v);
    }
    if let Some(v) = o.max_registers_per_request {
        out.max_registers_per_request = v;
    }
    if let Some(v) = o.missing_full_block {
        out.missing_full_block = v;
    }
    if let Some(v) = o.missing_partial_block {
        out.missing_partial_block = v;
    }
    if let Some(v) = o.response_delay_ms {
        out.response_delay_ms = v;
    }
    out
}

/// Overrides that set nothing leave the type's behavior as it is, as does
/// having no overrides at all.
pub proof fn law_unset_overrides_keep_base(base: BehaviorModel, o: DeviceBehaviorOverrides)
    requires
        o.disabled_function_codes is None,
        o.max_registers_per_request is None,
        o.missing_full_block is None,
        o.missing_partial_block is None,
        o.response_delay_ms is None,
    ensures
        merged_behavior(base, Some(o)) == base,
        merged_behavior(base, None) == base,
{
}

/// Every field that the overrides set replaces the base's, and every field
/// they leave unset is the base's.
pub proof fn law_overrides_replace_set_fields(base: BehaviorModel, o: DeviceBehaviorOverrides)
    ensures
        ({
            let r = merged_behavior(base, Some(o));
            &&& (o.disabled_function_codes matches Some(v) ==> r.disabled_function_codes == v@)
            &&& (o.disabled_function_codes is None ==> r.disabled_function_codes
                == base.disabled_function_codes)
            &&& (o.max_registers_per_request matches Some(v) ==> r.max_registers_per_request == v)
            &&& (o.max_registers_per_request is None ==> r.max_registers_per_request
                == base.max_registers_per_request)
            &&& (o.missing_full_block matches Some(v) ==> r.missing_full_block == v)
            &&& (o.missing_full_block is None ==> r.missing_full_block == base.missing_full_block)
            &&& (o.missing_partial_block matches Some(v) ==> r.missing_partial_block == v)
            &&& (o.missing_partial_block is None ==> r.missing_partial_block
                == base.missing_partial_block)
            &&& (o.response_delay_ms matches Some(v) ==> r.response_delay_ms == v)
            &&& (o.response_delay_ms is None ==> r.response_delay_ms == base.response_delay_ms)
        }),
{
}

/// Laying the same overrides on twice is the same as laying them on once.
pub proof fn law_overrides_idempotent(base: BehaviorModel, o: Option<DeviceBehaviorOverrides>)
    ensures
        merged_behavior(merged_behavior(base, o), o) == merged_behavior(base, o),
{
}

/// A behavior as the API submits it, with the API's integer widths.
#[derive(Debug, Clone)]
pub struct BehaviorInput {
    pub disabled_function_codes: Vec<i32>,
    pub max_registers_per_request: Option<i32>,
    pub missing_full_block: MissingBlockBehavior,
    pub missing_partial_block: MissingBlockBehavior,
    pub response_delay_ms: i32,
}

/// Overrides as the API submits them: `clear_max_registers` removes the
/// register limit, which a plain absent limit cannot say.
#[derive(Debug, Clone)]
pub struct BehaviorOverridesInput {
    pub response_delay_ms: Option<i32>,
    pub max_registers_per_request: Option<i32>,
    pub clear_max_registers: Option<bool>,
    pub disabled_function_codes: Option<Vec<i32>>,
    pub missing_full_block: Option<MissingBlockBehavior>,
    pub missing_partial_block: Option<MissingBlockBehavior>,
}

/// An API delay: negative values count as zero.
pub open spec fn delay_of(v: i32) -> u32 {
    if v < 0 {
        0
    } else {
        v as u32
    }
}

/// Function codes as the API submits them, truncated to bytes.
pub open spec fn codes_of(v: Seq<i32>) -> Seq<u8> {
    v.map_values(|c: i32| c as u8)
}

fn codes_from(v: &Vec<i32>) -> (r: Vec<u8>)
    ensures
        r@ == codes_of(v@),
{
    let mut out: Vec<u8> = Vec::new();
    let mut i: usize = 0;
    while i < v.len()
        invariant
            i <= v@.len(),
            out@ == codes_of(v@.take(i as int)),
        decreases v@.len() - i,
    {
        out.push(v[i] as u8);
        assert(codes_of(v@.take(i + 1)) =~= codes_of(v@.take(i as int)).push(v@[i as int] as u8));
        i = i + 1;
    }
    assert(v@.take(v@.len() as int) =~= v@);
    out
}

impl BehaviorInput {
    /// The behavior the input describes; register limits are truncated to
    /// 16 bits and a negative delay counts as none.
    pub fn to_behavior(&self) -> (r: DeviceBehavior)
        ensures
            r.disabled_function_codes@ == codes_of(self.disabled_function_codes@),
            r.max_registers_per_request == match self.max_registers_per_request {
                Some(v) => Some(v as u16),
                None => None,
            },
            r.missing_full_block == self.missing_full_block,
            r.missing_partial_block == self.missing_partial_block,
            r.response_delay_ms == delay_of(self.response_delay_ms),
    {
        DeviceBehavior {
            disabled_function_codes: codes_from(&self.disabled_function_codes),
            max_registers_per_request: match self.max_registers_per_request {
                Some(v) => Some(v as u16),
                None => None,
            },
            missing_full_block: self.missing_full_block,
            missing_partial_block: self.missing_partial_block,
            response_delay_ms: if self.response_delay_ms < 0 {
                0
            } else {
                self.response_delay_ms as u32
            },
        }
    }
}

impl BehaviorOverridesInput {
    /// The overrides the input describes: clearing the limit wins over a
    /// given limit.
    pub fn to_overrides(&self) -> (r: DeviceBehaviorOverrides)
        ensures
            r.disabled_function_codes matches Some(c) ==> self.disabled_function_codes matches Some(
                d,
            ) && c@ == codes_of(d@),
            r.disabled_function_codes is None <==> self.disabled_function_codes is None,
            r.max_registers_per_request == if self.clear_max_registers == Some(true) {
                Some(None)
            } else {
                match self.max_registers_per_request {
                    Some(v) => Some(Some(v as u16)),
                    None => None,
                }
            },
            r.missing_full_block == self.missing_full_block,
            r.missing_partial_block == self.missing_partial_block,
            r.response_delay_ms == match self.response_delay_ms {
                Some(v) => Some(delay_of(v)),
                None => None,
            },
    {
        let clear = match self.clear_max_registers {
            Some(b) => b,
            None => false,
        };
        DeviceBehaviorOverrides {
            disabled_function_codes: match &self.disabled_function_codes {
                Some(v) => Some(codes_from(v)),
                None => None,
            },
            max_registers_per_request: if clear {
                Some(None)
            } else {
                match self.max_registers_per_request {
                    Some(v) => Some(Some(v as u16)),
                    None => None,
                }
            },
            missing_full_block: self.missing_full_block,
            missing_partial_block: self.missing_partial_block,
            response_delay_ms: match self.response_delay_ms {
                Some(v) => Some(
                    if v < 0 {
                        0
                    } else {
                        v as u32
                    },
                ),
                None => None,
            },
        }
    }
}

} // verus!
