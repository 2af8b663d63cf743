//! The device-list front end's state: which peers it shows, which incoming
//! request awaits a decision, and what the status line says. Rendering and
//! button handling live outside this crate; they hand events in and read
//! this state back.

use vstd::prelude::*;
use crate::protocol::{DeviceInfo, DeviceInfoV, DiscEvent, DiscEventV, MapMode, Message, MessageV};
use crate::codec::{encode_message, sp_encode_msg};
use crate::discovery::eview;

verus! {

/// The front end's state.
pub struct UiApp {
    /// The latest peer snapshot.
    pub devices: Vec<DeviceInfo>,
    /// Which listed peer is selected, if any.
    pub selected: Option<usize>,
    /// The latest undecided incoming request:
    /// (requester name, requester address, requester relay port).
    pub incoming: Option<(String, String, u16)>,
    /// The status line.
    pub status: String,
    pub ws_port: u16,
    pub inst: String,
    pub name: String,
}

/// Mathematical view of a [`UiApp`].
#[verifier::ext_equal]
pub struct UiAppV {
    pub devices: Seq<DeviceInfoV>,
    pub selected: Option<usize>,
    pub incoming: Option<(Seq<char>, Seq<char>, u16)>,
    pub status: Seq<char>,
    pub ws_port: u16,
    pub inst: Seq<char>,
    pub name: Seq<char>,
}

impl View for UiApp {
    type V = UiAppV;

    open spec fn view(&self) -> UiAppV {
        UiAppV {
            devices: self.devices@.map_values(|d: DeviceInfo| d@),
            selected: self.selected,
            incoming: match self.incoming {
                None => None,
                Some((a, b, p)) => Some((a@, b@, p)),
            },
            status: self.status@,
            ws_port: self.ws_port,
            inst: self.inst@,
            name: self.name@,
        }
    }
}

/// The front end's state after one event:
/// - a snapshot replaces the shown device list;
/// - an incoming request replaces the undecided one (latest wins);
/// - an answer to this host's own request sets the status line.
pub open spec fn spec_apply(u: UiAppV, e: DiscEventV) -> UiAppV {
    match e {
        DiscEventV::DevicesChanged(list) => UiAppV { devices: list, ..u },
        DiscEventV::RequestReceived { from_inst, from_name, ws_host, ws_port } => UiAppV {
            incoming: Some((from_name, ws_host, ws_port)),
            ..u
        },
        DiscEventV::ResponseAccepted { host, port } => UiAppV {
            status: "Response accepted"@,
            ..u
        },
        DiscEventV::ResponseDeclined { from } => UiAppV { status: "Response declined"@, ..u },
    }
}

/// The front end's state after a batch of events, applied in order.
pub open spec fn spec_apply_all(u: UiAppV, es: Seq<DiscEventV>) -> UiAppV
    decreases es.len(),
{
    if es.len() == 0 {
        u
    } else {
        spec_apply_all(spec_apply(u, es.first()), es.drop_first())
    }
}

impl UiApp {
    /// A fresh front end that knows no peers and has nothing pending.
    pub fn new(ws_port: u16, inst: String, name: String) -> (r: Self)
        ensures
            r@.devices == Seq::<DeviceInfoV>::empty(),
            r@.selected is None,
            r@.incoming is None,
            r@.status == Seq::<char>::empty(),
            r@.ws_port == ws_port,
            r@.inst == inst@,
            r@.name == name@,
    {
        let r = UiApp {
            devices: Vec::new(),
            selected: None,
            incoming: None,
            status: String::new(),
            ws_port,
            inst,
            name,
        };
        proof {
            assert(r@.devices =~= Seq::<DeviceInfoV>::empty());
        }
        r
    }

    /// Fold one event into the state, as [`spec_apply`] describes.
    pub fn apply_event(&mut self, ev: DiscEvent)
        ensures
            final(self)@ == spec_apply(old(self)@, ev@),
    {
        match ev {
            DiscEvent::DevicesChanged(list) => {
                self.devices = list;
            },
            DiscEvent::RequestReceived { from_inst: _, from_name, ws_host, ws_port } => {
                self.incoming = Some((from_name, ws_host, ws_port));
            },
            DiscEvent::ResponseAccepted { host: _, port: _ } => {
                self.status = String::new();
                self.status.append("Response accepted");
            },
            DiscEvent::ResponseDeclined { from: _ } => {
                self.status = String::new();
                self.status.append("Response declined");
            },
        }
        proof {
            assert(self@ =~~= spec_apply(old(self)@, ev@));
        }
    }

    /// The datagram text that asks any listener at the chosen address for
    /// control, as the front end's request button sends it.
    pub fn make_request_datagram(&self, self_ip: String) -> (r: String)
        ensures
            r@ == sp_encode_msg(
                MessageV::RequestControl {
                    from: self.inst@,
                    to: None,
                    name: self.name@,
                    ws_host: self_ip@,
                    ws_port: self.ws_port,
                    options: MapMode::Relative,
                },
            ),
    {
        let msg = Message::RequestControl {
            from: self.inst.clone(),
            to: None,
            name: self.name.clone(),
            ws_host: self_ip,
            ws_port: self.ws_port,
            options: MapMode::Relative,
        };
        encode_message(&msg)
    }

    /// The datagram text that answers the pending request, as the front
    /// end's accept and decline buttons send it.
    pub fn make_response_datagram(&self, accepted: bool) -> (r: String)
        ensures
            r@ == sp_encode_msg(MessageV::ResponseControl { from: self.inst@, accepted }),
    {
        let msg = Message::ResponseControl { from: self.inst.clone(), accepted };
        encode_message(&msg)
    }

    /// Fold a drained batch of events into the state, in delivery order.
    pub fn poll_events(&mut self, events: Vec<DiscEvent>)
        ensures
            final(self)@ == spec_apply_all(old(self)@, eview(events@)),
    {
        let ghost es = eview(events@);
        let mut pending = events;
        while pending.len() > 0
            invariant
                spec_apply_all(old(self)@, es) == spec_apply_all(self@, eview(pending@)),
            decreases pending@.len(),
        {
            let ghost evs0 = eview(pending@);
            let ev = pending.remove(0);
            proof {
                assert(ev@ == evs0.first());
                assert(eview(pending@) =~= evs0.drop_first());
            }
            self.apply_event(ev);
        }
        proof {
            assert(eview(pending@).len() == 0);
        }
    }
}

} // verus!
