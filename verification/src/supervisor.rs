//! Decisions of the transport supervisor: which listeners the active
//! context asks for, what to do when that changes, how a serial line is
//! set up, and what status the user sees afterwards. Starting, stopping
//! and opening are the caller's work; these functions say what to do.

use vstd::prelude::*;
use crate::model::{ContextId, RtuTransport, TcpTransport, World, context_index};
use crate::text::{chars_of, decimal, lower_code, push_decimal, push_span};

verus! {

/// Runtime state of one protocol's listener.
#[derive(Debug, Clone)]
pub enum TransportState {
    /// No transport is configured or enabled for this protocol.
    Disabled,
    /// Running and listening; `description` is human-readable, such as
    /// `127.0.0.1:502` or a device path.
    Running { description: String },
    /// Enabled, but the configuration could not be applied.
    Error { description: String, message: String },
}

impl TransportState {
    pub fn is_running(&self) -> (r: bool)
        ensures
            r == (self is Running),
    {
        matches!(self, TransportState::Running { .. })
    }
}

/// Each protocol's runtime state, for display.
#[derive(Debug, Clone)]
pub struct TransportStatus {
    pub tcp: TransportState,
    pub rtu: TransportState,
}

impl Default for TransportStatus {
    fn default() -> (r: Self)
        ensures
            r.tcp is Disabled,
            r.rtu is Disabled,
    {
        TransportStatus { tcp: TransportState::Disabled, rtu: TransportState::Disabled }
    }
}

/// Two TCP settings are the same.
pub open spec fn same_tcp(a: TcpTransport, b: TcpTransport) -> bool {
    a.enabled == b.enabled && a.bind@ == b.bind@ && a.port == b.port
}

/// Two optional strings are the same.
pub open spec fn same_opt_text(a: Option<String>, b: Option<String>) -> bool {
    match (a, b) {
        (Some(x), Some(y)) => x@ == y@,
        (None, None) => true,
        _ => false,
    }
}

/// Two RTU settings are the same.
pub open spec fn same_rtu(a: RtuTransport, b: RtuTransport) -> bool {
    &&& a.enabled == b.enabled
    &&& a.device@ == b.device@
    &&& a.baud_rate == b.baud_rate
    &&& a.parity@ == b.parity@
    &&& a.data_bits == b.data_bits
    &&& a.stop_bits == b.stop_bits
    &&& same_opt_text(a.virtual_serial_id, b.virtual_serial_id)
}

/// A copy of TCP settings.
pub fn copy_tcp(t: &TcpTransport) -> (r: TcpTransport)
    ensures
        same_tcp(r, *t),
{
    TcpTransport { enabled: t.enabled, bind: t.bind.clone(), port: t.port }
}

fn copy_opt_text(a: &Option<String>) -> (r: Option<String>)
    ensures
        same_opt_text(r, *a),
{
    match a {
        Some(s) => Some(s.clone()),
        None => None,
    }
}

/// A copy of RTU settings.
pub fn copy_rtu(t: &RtuTransport) -> (r: RtuTransport)
    ensures
        same_rtu(r, *t),
{
    RtuTransport {
        enabled: t.enabled,
        device: t.device.clone(),
        baud_rate: t.baud_rate,
        parity: t.parity.clone(),
        data_bits: t.data_bits,
        stop_bits: t.stop_bits,
        virtual_serial_id: copy_opt_text(&t.virtual_serial_id),
    }
}

/// The TCP settings the world asks to run: those of the active context,
/// when it has TCP enabled.
pub open spec fn wanted_tcp(w: World) -> Option<TcpTransport> {
    match w.active_index() {
        Some(i) => if w.contexts@[i].transport.tcp.enabled {
            Some(w.contexts@[i].transport.tcp)
        } else {
            None
        },
        None => None,
    }
}

/// The RTU settings the world asks to run.
pub open spec fn wanted_rtu(w: World) -> Option<RtuTransport> {
    match w.active_index() {
        Some(i) => if w.contexts@[i].transport.rtu.enabled {
            Some(w.contexts@[i].transport.rtu)
        } else {
            None
        },
        None => None,
    }
}

/// `a` and `b` are both absent, or both present and the same.
pub open spec fn same_opt_tcp(a: Option<TcpTransport>, b: Option<TcpTransport>) -> bool {
    match (a, b) {
        (Some(x), Some(y)) => same_tcp(x, y),
        (None, None) => true,
        _ => false,
    }
}

pub open spec fn same_opt_rtu(a: Option<RtuTransport>, b: Option<RtuTransport>) -> bool {
    match (a, b) {
        (Some(x), Some(y)) => same_rtu(x, y),
        (None, None) => true,
        _ => false,
    }
}

impl World {
    /// The transport settings the active context asks to run (none for a
    /// disabled protocol or when no context is active).
    pub fn wanted_transports(&self) -> (r: (Option<TcpTransport>, Option<RtuTransport>))
        ensures
            same_opt_tcp(r.0, wanted_tcp(*self)),
            same_opt_rtu(r.1, wanted_rtu(*self)),
    {
        match self.active_context() {
            Some(ctx) => {
                let tcp = if ctx.transport.tcp.enabled {
                    Some(copy_tcp(&ctx.transport.tcp))
                } else {
                    None
                };
                let rtu = if ctx.transport.rtu.enabled {
                    Some(copy_rtu(&ctx.transport.rtu))
                } else {
                    None
                };
                (tcp, rtu)
            },
            None => (None, None),
        }
    }
}

fn same_opt_tcp_exec(a: &Option<TcpTransport>, b: &Option<TcpTransport>) -> (r: bool)
    ensures
        r == same_opt_tcp(*a, *b),
{
    match (a, b) {
        (Some(x), Some(y)) => x.enabled == y.enabled && x.bind == y.bind && x.port == y.port,
        (None, None) => true,
        _ => false,
    }
}

fn same_opt_text_exec(a: &Option<String>, b: &Option<String>) -> (r: bool)
    ensures
        r == same_opt_text(*a, *b),
{
    match (a, b) {
        (Some(x), Some(y)) => *x == *y,
        (None, None) => true,
        _ => false,
    }
}

fn same_opt_rtu_exec(a: &Option<RtuTransport>, b: &Option<RtuTransport>) -> (r: bool)
    ensures
        r == same_opt_rtu(*a, *b),
{
    match (a, b) {
        (Some(x), Some(y)) => x.enabled == y.enabled && x.device == y.device && x.baud_rate
            == y.baud_rate && x.parity == y.parity && x.data_bits == y.data_bits && x.stop_bits
            == y.stop_bits && same_opt_text_exec(&x.virtual_serial_id, &y.virtual_serial_id),
        (None, None) => true,
        _ => false,
    }
}

/// Data bits per character.
#[derive(Debug, Clone, Copy, PartialEq, Eq, Structural)]
pub enum SerialDataBits {
    Five,
    Six,
    Seven,
    Eight,
}

/// Stop bits per character.
#[derive(Debug, Clone, Copy, PartialEq, Eq, Structural)]
pub enum SerialStopBits {
    One,
    Two,
}

/// Parity checking.
#[derive(Debug, Clone, Copy, PartialEq, Eq, Structural)]
pub enum SerialParity {
    Off,
    Odd,
    Even,
}

/// A serial device and its line settings, with the defaults filled in.
#[derive(Debug, Clone)]
pub struct SerialConfig {
    pub device: String,
    pub baud_rate: u32,
    pub data_bits: u8,
    pub stop_bits: u8,
    /// Case-insensitive: N(one) / E(ven) / O(dd), by its first character.
    pub parity: String,
}

/// The line settings a serial configuration opens the port with.
pub struct SerialLine {
    pub data_bits: SerialDataBits,
    pub stop_bits: SerialStopBits,
    pub parity: SerialParity,
}

/// `5`, `6` and `7` data bits are taken as given; anything else is 8.
pub open spec fn spec_data_bits(n: u8) -> SerialDataBits {
    if n == 5 {
        SerialDataBits::Five
    } else if n == 6 {
        SerialDataBits::Six
    } else if n == 7 {
        SerialDataBits::Seven
    } else {
        SerialDataBits::Eight
    }
}

/// `2` stop bits are taken as given; anything else is 1.
pub open spec fn spec_stop_bits(n: u8) -> SerialStopBits {
    if n == 2 {
        SerialStopBits::Two
    } else {
        SerialStopBits::One
    }
}

/// The parity a setting names by its first character, in either case.
pub open spec fn spec_parity(p: Seq<char>) -> SerialParity {
    if p.len() > 0 && lower_code(p[0]) == 101 {
        SerialParity::Even
    } else if p.len() > 0 && lower_code(p[0]) == 111 {
        SerialParity::Odd
    } else {
        SerialParity::Off
    }
}

/// How the port of a serial configuration is set up.
pub fn serial_line(cfg: &SerialConfig) -> (r: SerialLine)
    ensures
        r.data_bits == spec_data_bits(cfg.data_bits),
        r.stop_bits == spec_stop_bits(cfg.stop_bits),
        r.parity == spec_parity(cfg.parity@),
{
    let data_bits = match cfg.data_bits {
        5 => SerialDataBits::Five,
        6 => SerialDataBits::Six,
        7 => SerialDataBits::Seven,
        _ => SerialDataBits::Eight,
    };
    let stop_bits = match cfg.stop_bits {
        2 => SerialStopBits::Two,
        _ => SerialStopBits::One,
    };
    let p = chars_of(cfg.parity.as_str());
    let first: u32 = if p.len() > 0 {
        p[0] as u32
    } else {
        0
    };
    let parity = if p.len() > 0 && (first == 69 || first == 101) {
        SerialParity::Even
    } else if p.len() > 0 && (first == 79 || first == 111) {
        SerialParity::Odd
    } else {
        SerialParity::Off
    };
    SerialLine { data_bits, stop_bits, parity }
}

/// What to do with one protocol's listener when the settings may have
/// changed.
#[derive(Debug, Clone)]
pub enum TransportPlan {
    /// The wanted settings are those already running: leave it alone.
    Unchanged,
    /// Stop what runs; the protocol is now disabled.
    Disable,
    /// Stop what runs; the settings cannot be applied, for this reason.
    Fail { description: String, message: String },
    /// Stop what runs and listen for Modbus TCP on `bind:port`.
    Listen { bind: String, port: u16, description: String },
    /// Stop what runs and serve the master side of this virtual serial pair.
    VirtualSerial { id: String, description: String },
    /// Stop what runs and open this serial device.
    Serial { config: SerialConfig, description: String },
}

/// The TCP plan: no wanted listener disables (which also clears the status
/// a failed start left); unchanged settings keep running; otherwise listen
/// on the bind address (`0.0.0.0` when empty) and port (502 when 0).
pub open spec fn tcp_plan_ok(current: Option<TcpTransport>, want: Option<TcpTransport>, p: TransportPlan) -> bool {
    match want {
        None => p is Disable,
        Some(cfg) => if same_opt_tcp(current, want) {
            p is Unchanged
        } else {
            {
                let bind = if cfg.bind@.len() == 0 {
                    "0.0.0.0"@
                } else {
                    cfg.bind@
                };
                let port: u16 = if cfg.port == 0 {
                    502
                } else {
                    cfg.port
                };
                p matches TransportPlan::Listen { bind: b, port: q, description: d } && b@ == bind && q
                    == port && d@ == bind + seq![':'] + decimal(port as nat)
            }
        },
    }
}

/// Decides what the TCP listener does when the wanted settings are `want`
/// and `current` runs.
pub fn plan_tcp(current: &Option<TcpTransport>, want: &Option<TcpTransport>) -> (r: TransportPlan)
    ensures
        tcp_plan_ok(*current, *want, r),
{
    if want.is_none() {
        return TransportPlan::Disable;
    }
    if same_opt_tcp_exec(current, want) {
        return TransportPlan::Unchanged;
    }
    match want {
        None => TransportPlan::Disable,
        Some(cfg) => {
            let bind = if cfg.bind.as_str().unicode_len() == 0 {
                String::from_str("0.0.0.0")
            } else {
                cfg.bind.clone()
            };
            let port: u16 = if cfg.port == 0 {
                502
            } else {
                cfg.port
            };
            let mut description = bind.clone();
            crate::text::push_char(&mut description, ':');
            push_decimal(&mut description, port as u64);
            proof {
                reveal_strlit("0.0.0.0");
            }
            assert(description@ =~= bind@ + seq![':'] + decimal(port as nat));
            TransportPlan::Listen { bind, port, description }
        },
    }
}

/// The message shown when no device is configured.
pub open spec fn no_device_message() -> Seq<char> {
    "Device path is empty \u{2014} pick a virtual serial or enter a device path."@
}

/// The RTU plan: no wanted port disables (which also clears the status a
/// failed start left); unchanged settings keep running; a virtual serial id
/// serves that pair; otherwise an empty device path fails, and a device
/// opens with 9600 baud, 8 data bits, 1 stop bit and parity `N` standing in
/// for zero or empty settings.
pub open spec fn rtu_plan_ok(current: Option<RtuTransport>, want: Option<RtuTransport>, p: TransportPlan) -> bool {
    match want {
        None => p is Disable,
        Some(cfg) => if same_opt_rtu(current, want) {
            p is Unchanged
        } else {
            match cfg.virtual_serial_id {
                Some(id) => p matches TransportPlan::VirtualSerial { id: i, description: d } && i@
                    == id@ && d@ == "virtual serial "@ + id@,
                None => if cfg.device@.len() == 0 {
                    p matches TransportPlan::Fail { description: d, message: m } && d@
                        == "(no device)"@ && m@ == no_device_message()
                } else {
                    p matches TransportPlan::Serial { config: c, description: d } && d@ == cfg.device@
                        && c.device@ == cfg.device@ && c.baud_rate == (if cfg.baud_rate == 0 {
                        9600
                    } else {
                        cfg.baud_rate
                    }) && c.data_bits == (if cfg.data_bits == 0 {
                        8
                    } else {
                        cfg.data_bits
                    }) && c.stop_bits == (if cfg.stop_bits == 0 {
                        1
                    } else {
                        cfg.stop_bits
                    }) && c.parity@ == (if cfg.parity@.len() == 0 {
                        "N"@
                    } else {
                        cfg.parity@
                    })
                },
            }
        },
    }
}

/// Decides what the RTU listener does when the wanted settings are `want`
/// and `current` runs.
pub fn plan_rtu(current: &Option<RtuTransport>, want: &Option<RtuTransport>) -> (r: TransportPlan)
    ensures
        rtu_plan_ok(*current, *want, r),
{
    if want.is_none() {
        return TransportPlan::Disable;
    }
    if same_opt_rtu_exec(current, want) {
        return TransportPlan::Unchanged;
    }
    let cfg = match want {
        None => {
            return TransportPlan::Disable;
        },
        Some(cfg) => cfg,
    };
    if let Some(id) = &cfg.virtual_serial_id {
        let mut description = String::from_str("virtual serial ");
        description.append(id.as_str());
        return TransportPlan::VirtualSerial { id: id.clone(), description };
    }
    if cfg.device.as_str().unicode_len() == 0 {
        return TransportPlan::Fail {
            description: String::from_str("(no device)"),
            message: String::from_str(
                "Device path is empty \u{2014} pick a virtual serial or enter a device path.",
            ),
        };
    }
    let parity = if cfg.parity.as_str().unicode_len() == 0 {
        String::from_str("N")
    } else {
        cfg.parity.clone()
    };
    let config = SerialConfig {
        device: cfg.device.clone(),
        baud_rate: if cfg.baud_rate == 0 {
            9600
        } else {
            cfg.baud_rate
        },
        data_bits: if cfg.data_bits == 0 {
            8
        } else {
            cfg.data_bits
        },
        stop_bits: if cfg.stop_bits == 0 {
            1
        } else {
            cfg.stop_bits
        },
        parity,
    };
    TransportPlan::Serial { config, description: cfg.device.clone() }
}

/// The status after trying to start a listener described by `description`:
/// running when it started, else the error with the reason.
pub fn started_state(description: String, outcome: Result<(), String>) -> (r: TransportState)
    ensures
        match outcome {
            Ok(_) => r matches TransportState::Running { description: d } && d@ == description@,
            Err(m) => r matches TransportState::Error { description: d, message: e } && d@
                == description@ && e@ == m@,
        },
{
    match outcome {
        Ok(_) => TransportState::Running { description },
        Err(message) => TransportState::Error { description, message },
    }
}

/// The status when the virtual serial pair `id` is not registered.
pub fn missing_virtual_serial(id: &String, description: String) -> (r: TransportState)
    ensures
        r matches TransportState::Error { description: d, message: m } && d@ == description@ && m@
            == "virtual serial '"@ + id@ + "' not found"@,
{
    let mut message = String::from_str("virtual serial '");
    message.append(id.as_str());
    message.append("' not found");
    TransportState::Error { description, message }
}

/// The kind of a protocol's state, as the API reports it.
#[derive(Debug, Clone, Copy, PartialEq, Eq, Structural)]
pub enum StateKind {
    Disabled,
    Running,
    Error,
}

/// A protocol's state as the API reports it: the kind, the description
/// (empty when disabled) and the error message of a failed configuration.
#[derive(Debug, Clone)]
pub struct TransportStatusView {
    pub state: StateKind,
    pub description: String,
    pub error: Option<String>,
}

/// The API's view of a runtime state.
pub fn state_to_view(s: &TransportState) -> (r: TransportStatusView)
    ensures
        match s {
            TransportState::Disabled => r.state == StateKind::Disabled && r.description@.len() == 0
                && r.error is None,
            TransportState::Running { description } => r.state == StateKind::Running
                && r.description@ == description@ && r.error is None,
            TransportState::Error { description, message } => {
                &&& r.state == StateKind::Error
                &&& r.description@ == description@
                &&& r.error matches Some(e) && e@ == message@
            },
        },
{
    match s {
        TransportState::Disabled => TransportStatusView {
            state: StateKind::Disabled,
            description: String::new(),
            error: None,
        },
        TransportState::Running { description } => TransportStatusView {
            state: StateKind::Running,
            description: description.clone(),
            error: None,
        },
        TransportState::Error { description, message } => TransportStatusView {
            state: StateKind::Error,
            description: description.clone(),
            error: Some(message.clone()),
        },
    }
}

/// Reconfiguring is idempotent: when the wanted TCP settings are those
/// already running, the listener keeps running untouched.
pub proof fn law_tcp_same_settings_unchanged(current: TcpTransport, want: TcpTransport, p: TransportPlan)
    requires
        same_tcp(current, want),
        tcp_plan_ok(Some(current), Some(want), p),
    ensures
        p is Unchanged,
{
}

/// Reconfiguring is idempotent for RTU too, which keeps a virtual serial
/// pair that is in use from being torn down needlessly.
pub proof fn law_rtu_same_settings_unchanged(current: RtuTransport, want: RtuTransport, p: TransportPlan)
    requires
        same_rtu(current, want),
        rtu_plan_ok(Some(current), Some(want), p),
    ensures
        p is Unchanged,
{
}

/// Whenever a TCP listener is started, it is on a real port: the plan never
/// asks for port 0.
pub proof fn law_tcp_listen_port_nonzero(current: Option<TcpTransport>, want: Option<TcpTransport>, p: TransportPlan)
    requires
        tcp_plan_ok(current, want, p),
        p is Listen,
    ensures
        p->Listen_port != 0,
{
}

/// A protocol that is not wanted ends up disabled, whatever ran before and
/// whatever status a failed start left: its status then reads "no transport
/// configured".
pub proof fn law_unwanted_transport_disabled(
    tcp_current: Option<TcpTransport>,
    rtu_current: Option<RtuTransport>,
    tcp_plan: TransportPlan,
    rtu_plan: TransportPlan,
)
    requires
        tcp_plan_ok(tcp_current, None, tcp_plan),
        rtu_plan_ok(rtu_current, None, rtu_plan),
    ensures
        tcp_plan is Disable,
        rtu_plan is Disable,
{
}

/// The active context is live: once a context is the active one, the
/// listeners the supervisor is asked to run are exactly its enabled ones.
pub proof fn law_active_context_is_live(w: World, id: ContextId)
    requires
        w.active_context_id == Some(id),
        context_index(w.contexts@, id) is Some,
    ensures
        ({
            let c = w.contexts@[context_index(w.contexts@, id)->0];
            &&& wanted_tcp(w) == if c.transport.tcp.enabled {
                Some(c.transport.tcp)
            } else {
                None
            }
            &&& wanted_rtu(w) == if c.transport.rtu.enabled {
                Some(c.transport.rtu)
            } else {
                None
            }
        }),
{
}

} // verus!
