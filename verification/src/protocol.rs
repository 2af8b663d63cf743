//! The message vocabulary of the discovery and relay protocols, together
//! with the mathematical views that the contracts speak of.

use vstd::prelude::*;

verus! {

/// Coordinate-mapping mode carried in a control request's options.
#[derive(Clone, Copy, PartialEq, Eq, Structural, Debug)]
pub enum MapMode {
    Relative,
    Absolute,
}

/// An absolute pointer position captured on the controller and injected on
/// the target.
#[derive(Clone, Copy, PartialEq, Eq, Structural, Debug)]
pub struct PointerEvent {
    pub x: i32,
    pub y: i32,
}

/// A datagram of the discovery/handoff protocol.
pub enum Message {
    /// Periodic self-announcement.
    Beacon {
        instance_id: String,
        name: String,
        ip: String,
        ws_port: u16,
        version: u32,
    },
    /// Ask a peer (or, with `to == None`, any listener) for control of its
    /// pointer.
    RequestControl {
        from: String,
        to: Option<String>,
        name: String,
        ws_host: String,
        ws_port: u16,
        options: MapMode,
    },
    /// Answer a control request.
    ResponseControl {
        from: String,
        accepted: bool,
    },
}

/// Mathematical view of a [`Message`].
pub enum MessageV {
    Beacon {
        instance_id: Seq<char>,
        name: Seq<char>,
        ip: Seq<char>,
        ws_port: u16,
        version: u32,
    },
    RequestControl {
        from: Seq<char>,
        to: Option<Seq<char>>,
        name: Seq<char>,
        ws_host: Seq<char>,
        ws_port: u16,
        options: MapMode,
    },
    ResponseControl {
        from: Seq<char>,
        accepted: bool,
    },
}

impl View for Message {
    type V = MessageV;

    open spec fn view(&self) -> MessageV {
        match self {
            Message::Beacon { instance_id, name, ip, ws_port, version } => MessageV::Beacon {
                instance_id: instance_id@,
                name: name@,
                ip: ip@,
                ws_port: *ws_port,
                version: *version,
            },
            Message::RequestControl { from, to, name, ws_host, ws_port, options } => {
                MessageV::RequestControl {
                    from: from@,
                    to: match to {
                        Some(t) => Some(t@),
                        None => None,
                    },
                    name: name@,
                    ws_host: ws_host@,
                    ws_port: *ws_port,
                    options: *options,
                }
            },
            Message::ResponseControl { from, accepted } => MessageV::ResponseControl {
                from: from@,
                accepted: *accepted,
            },
        }
    }
}

/// What is known about a discovered peer.
pub struct DeviceInfo {
    pub name: String,
    pub ip: String,
    pub ws_port: u16,
    /// Timestamp of the freshest beacon from this peer, in milliseconds of
    /// the caller's clock.
    pub last_seen: u64,
}

/// Mathematical view of a [`DeviceInfo`].
pub struct DeviceInfoV {
    pub name: Seq<char>,
    pub ip: Seq<char>,
    pub ws_port: u16,
    pub last_seen: u64,
}

impl View for DeviceInfo {
    type V = DeviceInfoV;

    open spec fn view(&self) -> DeviceInfoV {
        DeviceInfoV { name: self.name@, ip: self.ip@, ws_port: self.ws_port, last_seen: self.last_seen }
    }
}

impl Clone for DeviceInfo {
    fn clone(&self) -> (r: Self)
        ensures
            r@ == self@,
    {
        DeviceInfo {
            name: self.name.clone(),
            ip: self.ip.clone(),
            ws_port: self.ws_port,
            last_seen: self.last_seen,
        }
    }
}

/// A discovery or handoff outcome delivered to consumers (the UI, the
/// session orchestrator).
pub enum DiscEvent {
    /// The set of known peers changed; carries the full current snapshot.
    DevicesChanged(Vec<DeviceInfo>),
    /// A peer asks for control of this host's pointer.
    RequestReceived {
        from_inst: String,
        from_name: String,
        ws_host: String,
        ws_port: u16,
    },
    /// A peer accepted this host's control request; `host` is the source
    /// address the acceptance arrived from.
    ResponseAccepted {
        host: String,
        port: u16,
    },
    /// A peer declined this host's control request.
    ResponseDeclined {
        from: String,
    },
}

/// Mathematical view of a [`DiscEvent`].
pub enum DiscEventV {
    DevicesChanged(Seq<DeviceInfoV>),
    RequestReceived {
        from_inst: Seq<char>,
        from_name: Seq<char>,
        ws_host: Seq<char>,
        ws_port: u16,
    },
    ResponseAccepted {
        host: Seq<char>,
        port: u16,
    },
    ResponseDeclined {
        from: Seq<char>,
    },
}

impl View for DiscEvent {
    type V = DiscEventV;

    open spec fn view(&self) -> DiscEventV {
        match self {
            DiscEvent::DevicesChanged(list) => DiscEventV::DevicesChanged(
                list@.map_values(|d: DeviceInfo| d@),
            ),
            DiscEvent::RequestReceived { from_inst, from_name, ws_host, ws_port } => {
                DiscEventV::RequestReceived {
                    from_inst: from_inst@,
                    from_name: from_name@,
                    ws_host: ws_host@,
                    ws_port: *ws_port,
                }
            },
            DiscEvent::ResponseAccepted { host, port } => DiscEventV::ResponseAccepted {
                host: host@,
                port: *port,
            },
            DiscEvent::ResponseDeclined { from } => DiscEventV::ResponseDeclined { from: from@ },
        }
    }
}

} // verus!
