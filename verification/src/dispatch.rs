//! What the transports do with one request PDU for one slave id: find the
//! device, parse the request, run the engine and build the reply. The
//! transports perform the delay, store the new values and report traffic.

use std::collections::BTreeMap;
use vstd::prelude::*;
use crate::behavior::{effective_behavior, merged_behavior};
use crate::encoding::Value;
use crate::engine::{
    EngineOutput, ModbusException, ModbusRequest, ModbusResponse, Outcome, OutcomeModel,
    apply_writes, process_request, registers_ok, spec_apply, spec_process, value_models,
};
use crate::model::{Device, DeviceId, DeviceType, World, lemma_first_index};
use crate::pdu::{build_exception, build_response, parse_request, spec_build_response, spec_parse_request};
use crate::world::spec_resolve;

verus! {

/// What to send back for a request.
#[derive(Debug, Clone, PartialEq, Eq)]
pub enum DispatchOut {
    /// Send nothing (unknown slave, or a device that times out).
    Silence,
    /// Send this PDU.
    Reply(Vec<u8>),
}

/// The result of handling one request PDU.
#[derive(Debug)]
pub struct Dispatched {
    pub out: DispatchOut,
    /// The device that handled the request, if one answers the slave id.
    pub device_id: Option<DeviceId>,
    /// The parsed request, when it parsed.
    pub request: Option<ModbusRequest>,
    /// The engine's response, when it answered with one.
    pub response: Option<ModbusResponse>,
    /// How long to wait before answering.
    pub delay_ms: u32,
    /// The device's new runtime values, when the request wrote registers.
    pub new_values: Option<BTreeMap<u128, Value>>,
}

/// The device type that a slave id resolves to, if any, has a layout the
/// engine accepts.
pub open spec fn slave_layout_ok(w: World, slave_id: u8) -> bool {
    match spec_resolve(w, slave_id) {
        Some((c, d, t)) => registers_ok(w.device_types@[t].registers@),
        None => true,
    }
}

/// The function code a reply names: the PDU's first byte, or 0.
pub open spec fn pdu_function_code(pdu: Seq<u8>) -> u8 {
    if pdu.len() > 0 {
        pdu[0]
    } else {
        0
    }
}

/// The reply bytes of an engine outcome for a request with function code `fc`.
pub open spec fn spec_reply(o: OutcomeModel, fc: u8) -> Option<Seq<u8>> {
    match o {
        OutcomeModel::Response(r) => Some(spec_build_response(r)),
        OutcomeModel::Exception(e) => Some(seq![fc | 0x80u8, e.spec_code()]),
        OutcomeModel::Silence => None,
    }
}

pub open spec fn out_is(out: DispatchOut, bytes: Option<Seq<u8>>) -> bool {
    match bytes {
        None => out == DispatchOut::Silence,
        Some(b) => out matches DispatchOut::Reply(v) && v@ == b,
    }
}


/// The engine's part of handling a parsed request for a device.
fn run_request(dev: &Device, dt: &DeviceType, req: ModbusRequest, fc: u8) -> (r: Dispatched)
    requires
        registers_ok(dt.registers@),
    ensures
        ({
            let b = merged_behavior(dt.behavior.model(), dev.behavior_overrides);
            let (o, writes) = spec_process(req@, dt.registers@, value_models(dev.register_values@), b);
            &&& r.device_id == Some(dev.id)
            &&& r.request matches Some(q) && q@ == req@
            &&& out_is(r.out, spec_reply(o, fc))
            &&& match o {
                OutcomeModel::Response(resp) => r.response matches Some(x) && x@ == resp,
                _ => r.response is None,
            }
            &&& r.delay_ms == b.response_delay_ms
            &&& if writes.len() == 0 {
                r.new_values is None
            } else {
                r.new_values matches Some(m) && value_models(m@) == spec_apply(
                    dt.registers@,
                    value_models(dev.register_values@),
                    writes,
                )
            }
        }),
{
    let behavior = effective_behavior(&dt.behavior, dev.behavior_overrides.as_ref());
    let EngineOutput { outcome, state_update } = process_request(&req, dev, dt, &behavior);
    let new_values = if state_update.writes.len() > 0 {
        let mut values = dev.register_values.clone();
        apply_writes(&mut values, &dt.registers, &state_update.writes);
        Some(values)
    } else {
        None
    };
    let (out, response) = match outcome {
        Outcome::Response(resp) => (DispatchOut::Reply(build_response(&resp)), Some(resp)),
        Outcome::Exception(e) => (DispatchOut::Reply(build_exception(fc, e)), None),
        Outcome::Silence => (DispatchOut::Silence, None),
    };
    Dispatched {
        out,
        device_id: Some(dev.id),
        request: Some(req),
        response,
        delay_ms: behavior.response_delay_ms,
        new_values,
    }
}

/// Handle one request PDU addressed to a slave id.
pub fn dispatch_pdu(world: &World, slave_id: u8, pdu: &[u8]) -> (r: Dispatched)
    requires
        slave_layout_ok(*world, slave_id),
    ensures
        match spec_resolve(*world, slave_id) {
            None => {
                &&& r.out == DispatchOut::Silence
                &&& r.device_id is None
                &&& r.request is None
                &&& r.response is None
                &&& r.delay_ms == 0
                &&& r.new_values is None
            },
            Some((c, d, t)) => {
                let dev = world.contexts@[c].devices@[d];
                let dt = world.device_types@[t];
                let fc = pdu_function_code(pdu@);
                &&& r.device_id == Some(dev.id)
                &&& match spec_parse_request(pdu@) {
                    Err(_) => {
                        &&& out_is(r.out, Some(seq![fc | 0x80u8, ModbusException::IllegalFunction.spec_code()]))
                        &&& r.request is None
                        &&& r.response is None
                        &&& r.delay_ms == 0
                        &&& r.new_values is None
                    },
                    Ok(req) => {
                        let b = merged_behavior(dt.behavior.model(), dev.behavior_overrides);
                        let (o, writes) = spec_process(req, dt.registers@, value_models(dev.register_values@), b);
                        &&& r.request matches Some(q) && q@ == req
                        &&& out_is(r.out, spec_reply(o, fc))
                        &&& match o {
                            OutcomeModel::Response(resp) => r.response matches Some(x) && x@ == resp,
                            _ => r.response is None,
                        }
                        &&& r.delay_ms == b.response_delay_ms
                        &&& if writes.len() == 0 {
                            r.new_values is None
                        } else {
                            r.new_values matches Some(m) && value_models(m@) == spec_apply(
                                dt.registers@,
                                value_models(dev.register_values@),
                                writes,
                            )
                        }
                    },
                }
            },
        },
{
    let (dev, dt) = match world.resolve_slave(slave_id) {
        None => {
            return Dispatched {
                out: DispatchOut::Silence,
                device_id: None,
                request: None,
                response: None,
                delay_ms: 0,
                new_values: None,
            };
        },
        Some(p) => p,
    };
    proof {
        let (c, d, t) = spec_resolve(*world, slave_id)->0;
        lemma_first_index(world.device_types@, |x: DeviceType| x.id == world.contexts@[c].devices@[d].device_type_id);
    }
    let fc = if pdu.len() > 0 {
        pdu[0]
    } else {
        0
    };
    let req = match parse_request(pdu) {
        Err(_) => {
            return Dispatched {
                out: DispatchOut::Reply(build_exception(fc, ModbusException::IllegalFunction)),
                device_id: Some(dev.id),
                request: None,
                response: None,
                delay_ms: 0,
                new_values: None,
            };
        },
        Ok(r) => r,
    };
    run_request(dev, dt, req, fc)
}

impl World {
    /// Whether the device type that `slave_id` resolves to, if any, has a
    /// layout the engine accepts.
    pub fn slave_layout_ok(&self, slave_id: u8) -> (r: bool)
        ensures
            r == slave_layout_ok(*self, slave_id),
    {
        match self.resolve_slave(slave_id) {
            None => true,
            Some((_, dt)) => crate::engine::layout_ok(&dt.registers),
        }
    }
}

} // verus!
