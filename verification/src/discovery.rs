//! The peer registry and the discovery tick: what one round of the
//! discovery loop decides, given the clock and at most one inbound
//! datagram. The loop itself, and the socket it polls, live outside this
//! crate.

use vstd::prelude::*;
use crate::protocol::{DeviceInfo, DeviceInfoV, DiscEvent, DiscEventV, MapMode, Message, MessageV};
use crate::codec::{encode_message, parse_message, sp_encode_msg, sp_parse_msg};
use crate::{BEACON_INTERVAL_MS, DEVICE_TTL_MS};

verus! {

/// View of the registry: each known peer's id with what is known of it.
pub open spec fn rview(s: Seq<(String, DeviceInfo)>) -> Seq<(Seq<char>, DeviceInfoV)> {
    s.map_values(|e: (String, DeviceInfo)| (e.0@, e.1@))
}

/// View of a list of events.
pub open spec fn eview(s: Seq<DiscEvent>) -> Seq<DiscEventV> {
    s.map_values(|e: DiscEvent| e@)
}

/// The registry never holds two records for one peer id.
pub open spec fn distinct_ids(r: Seq<(Seq<char>, DeviceInfoV)>) -> bool {
    forall|i: int, j: int| 0 <= i < j < r.len() ==> (#[trigger] r[i]).0 != (#[trigger] r[j]).0
}

/// Some record of this peer id is present.
pub open spec fn has_id(r: Seq<(Seq<char>, DeviceInfoV)>, id: Seq<char>) -> bool {
    exists|i: int| 0 <= i < r.len() && (#[trigger] r[i]).0 == id
}

/// A record is fresh at `now` when at most the TTL has passed since its
/// last beacon.
pub open spec fn fresh_at(e: (Seq<char>, DeviceInfoV), now: u64) -> bool {
    now as int - e.1.last_seen as int <= DEVICE_TTL_MS
}

/// The freshness test at `now`, as a predicate on records.
pub open spec fn fresh_pred(now: u64) -> spec_fn((Seq<char>, DeviceInfoV)) -> bool {
    |e: (Seq<char>, DeviceInfoV)| fresh_at(e, now)
}

/// The test that a record is not about the peer `id`.
pub open spec fn not_id_pred(id: Seq<char>) -> spec_fn((Seq<char>, DeviceInfoV)) -> bool {
    |e: (Seq<char>, DeviceInfoV)| e.0 != id
}

/// The registry after eviction of expired records.
pub open spec fn spec_prune(r: Seq<(Seq<char>, DeviceInfoV)>, now: u64) -> Seq<
    (Seq<char>, DeviceInfoV),
> {
    r.filter(fresh_pred(now))
}

/// The registry after a record is inserted or fully overwritten: any old
/// record of this id goes, the new one comes (last writer wins).
pub open spec fn spec_upsert(
    r: Seq<(Seq<char>, DeviceInfoV)>,
    id: Seq<char>,
    info: DeviceInfoV,
) -> Seq<(Seq<char>, DeviceInfoV)> {
    r.filter(not_id_pred(id)).push((id, info))
}

/// The peer infos of the registry, in registry order.
pub open spec fn vsnap(r: Seq<(Seq<char>, DeviceInfoV)>) -> Seq<DeviceInfoV> {
    r.map_values(|e: (Seq<char>, DeviceInfoV)| e.1)
}

/// The advertised relay port of the peer with this id, if any.
pub open spec fn spec_find_port(r: Seq<(Seq<char>, DeviceInfoV)>, id: Seq<char>) -> Option<u16>
    decreases r.len(),
{
    if r.len() == 0 {
        None
    } else if r.first().0 == id {
        Some(r.first().1.ws_port)
    } else {
        spec_find_port(r.drop_first(), id)
    }
}

/// The registry after one inbound message: only a foreign beacon changes it.
pub open spec fn spec_handle_reg(
    r: Seq<(Seq<char>, DeviceInfoV)>,
    m: MessageV,
    self_id: Seq<char>,
    now: u64,
) -> Seq<(Seq<char>, DeviceInfoV)> {
    match m {
        MessageV::Beacon { instance_id, name, ip, ws_port, version } => {
            if instance_id != self_id {
                spec_upsert(r, instance_id, DeviceInfoV { name, ip, ws_port, last_seen: now })
            } else {
                r
            }
        },
        _ => r,
    }
}

/// The events one inbound message causes, against registry `r`:
/// - a foreign beacon: one snapshot of the registry with it applied;
/// - a beacon of this host itself: nothing;
/// - a control request addressed to this host or to any listener: one
///   request event; addressed to another id: nothing;
/// - an accepting control response: exactly one acceptance event carrying
///   the datagram's source address and the responder's advertised relay
///   port (this host's own port when the responder is unknown);
/// - a declining control response: one decline event.
pub open spec fn spec_handle_events(
    r: Seq<(Seq<char>, DeviceInfoV)>,
    m: MessageV,
    self_id: Seq<char>,
    self_port: u16,
    src: Seq<char>,
    now: u64,
) -> Seq<DiscEventV> {
    match m {
        MessageV::Beacon { instance_id, name, ip, ws_port, version } => {
            if instance_id != self_id {
                seq![
                    DiscEventV::DevicesChanged(
                        vsnap(
                            spec_upsert(
                                r,
                                instance_id,
                                DeviceInfoV { name, ip, ws_port, last_seen: now },
                            ),
                        ),
                    ),
                ]
            } else {
                Seq::empty()
            }
        },
        MessageV::RequestControl { from, to, name, ws_host, ws_port, options } => {
            if to is None || to == Some(self_id) {
                seq![
                    DiscEventV::RequestReceived {
                        from_inst: from,
                        from_name: name,
                        ws_host,
                        ws_port,
                    },
                ]
            } else {
                Seq::empty()
            }
        },
        MessageV::ResponseControl { from, accepted } => {
            if accepted {
                seq![
                    DiscEventV::ResponseAccepted {
                        host: src,
                        port: match spec_find_port(r, from) {
                            Some(p) => p,
                            None => self_port,
                        },
                    },
                ]
            } else {
                seq![DiscEventV::ResponseDeclined { from }]
            }
        },
    }
}

/// A sequence whose entries all satisfy the predicate filters to itself.
proof fn lemma_filter_all<A>(s: Seq<A>, pred: spec_fn(A) -> bool)
    requires
        forall|i: int| 0 <= i < s.len() ==> pred(#[trigger] s[i]),
    ensures
        s.filter(pred) == s,
    decreases s.len(),
{
    reveal(Seq::filter);
    if s.len() > 0 {
        lemma_filter_all(s.drop_last(), pred);
        assert(s.drop_last().push(s.last()) =~= s);
    }
}

/// Filtering a singleton keeps or drops its one entry.
proof fn lemma_filter_one<A>(x: A, pred: spec_fn(A) -> bool)
    ensures
        pred(x) ==> seq![x].filter(pred) == seq![x],
        !pred(x) ==> seq![x].filter(pred) == Seq::<A>::empty(),
{
    reveal_with_fuel(Seq::filter, 3);
    assert(seq![x].drop_last() =~= Seq::<A>::empty());
    assert(seq![x].last() == x);
    assert(Seq::<A>::empty().filter(pred) =~= Seq::<A>::empty());
    assert(Seq::<A>::empty().push(x) =~= seq![x]);
}

/// The registry of known peers, together with this host's own identity and
/// advertised relay port.
pub struct Discovery {
    pub instance_id: String,
    pub name: String,
    pub ws_port: u16,
    pub devices: Vec<(String, DeviceInfo)>,
}

/// What one discovery tick asks the caller to do: broadcast at most one
/// beacon datagram, and deliver the events in order.
pub struct TickOutcome {
    pub beacon: Option<String>,
    pub events: Vec<DiscEvent>,
}

impl Discovery {
    /// The registry holds at most one record per peer id.
    pub open spec fn wf(self) -> bool {
        distinct_ids(rview(self.devices@))
    }

    /// A fresh discovery state that knows no peers yet.
    pub fn new(instance_id: String, name: String, ws_port: u16) -> (r: Self)
        ensures
            r.instance_id@ == instance_id@,
            r.name@ == name@,
            r.ws_port == ws_port,
            rview(r.devices@) == Seq::<(Seq<char>, DeviceInfoV)>::empty(),
            r.wf(),
    {
        let r = Discovery { instance_id, name, ws_port, devices: Vec::new() };
        proof {
            assert(rview(r.devices@) =~= Seq::<(Seq<char>, DeviceInfoV)>::empty());
        }
        r
    }

    /// A copy of every known peer's info, in registry order.
    pub fn snapshot(&self) -> (r: Vec<DeviceInfo>)
        ensures
            r@.map_values(|d: DeviceInfo| d@) == vsnap(rview(self.devices@)),
    {
        let mut out: Vec<DeviceInfo> = Vec::new();
        let n = self.devices.len();
        let mut i: usize = 0;
        while i < n
            invariant
                0 <= i <= n,
                n == self.devices.len(),
                out@.len() == i,
                forall|m: int| 0 <= m < i ==> (#[trigger] out@[m])@ == self.devices@[m].1@,
            decreases n - i,
        {
            let item = self.devices[i].1.clone();
            out.push(item);
            i = i + 1;
        }
        proof {
            assert forall|m: int| 0 <= m < n implies out@.map_values(|d: DeviceInfo| d@)[m]
                == vsnap(rview(self.devices@))[m] by {
                assert(out@.map_values(|d: DeviceInfo| d@)[m] == out@[m]@);
                assert(rview(self.devices@)[m].1 == self.devices@[m].1@);
                assert(vsnap(rview(self.devices@))[m] == self.devices@[m].1@);
            }
            assert(out@.map_values(|d: DeviceInfo| d@) =~= vsnap(rview(self.devices@)));
        }
        out
    }

    /// The advertised relay port of the peer with this id, if known.
    pub fn find_port(&self, id: &String) -> (r: Option<u16>)
        ensures
            r == spec_find_port(rview(self.devices@), id@),
    {
        let ghost rv = rview(self.devices@);
        let n = self.devices.len();
        let mut i: usize = 0;
        proof {
            assert(rv.skip(0) =~= rv);
        }
        while i < n
            invariant
                0 <= i <= n,
                n == self.devices.len(),
                rv == rview(self.devices@),
                spec_find_port(rv, id@) == spec_find_port(rv.skip(i as int), id@),
            decreases n - i,
        {
            proof {
                assert(rv[i as int] == (self.devices@[i as int].0@, self.devices@[i as int].1@));
                assert(rv.skip(i as int).first() == rv[i as int]);
                assert(rv.skip(i as int).drop_first() =~= rv.skip(i + 1));
            }
            if self.devices[i].0 == *id {
                return Some(self.devices[i].1.ws_port);
            }
            i = i + 1;
        }
        proof {
            assert(rv.skip(n as int).len() == 0);
        }
        None
    }

    /// Insert or fully overwrite the record of one peer: last writer wins,
    /// no partial merge.
    pub fn upsert(&mut self, id: String, info: DeviceInfo)
        requires
            old(self).wf(),
        ensures
            final(self).wf(),
            final(self).instance_id == old(self).instance_id,
            final(self).name == old(self).name,
            final(self).ws_port == old(self).ws_port,
            rview(final(self).devices@) == spec_upsert(rview(old(self).devices@), id@, info@),
    {
        let ghost rv = rview(self.devices@);
        let ghost pred = not_id_pred(id@);
        let n = self.devices.len();
        let mut i: usize = 0;
        while i < n
            invariant
                0 <= i <= n,
                n == self.devices.len(),
                rv == rview(self.devices@),
                forall|m: int| 0 <= m < i ==> (#[trigger] rv[m]).0 != id@,
            ensures
                0 <= i <= n,
                n == self.devices.len(),
                rv == rview(self.devices@),
                forall|m: int| 0 <= m < i ==> (#[trigger] rv[m]).0 != id@,
                i < n ==> rv[i as int].0 == id@,
            decreases n - i,
        {
            proof {
                assert(rv[i as int] == (self.devices@[i as int].0@, self.devices@[i as int].1@));
            }
            if self.devices[i].0 == id {
                break ;
            }
            i = i + 1;
        }
        if i < n {
            // this id is present at index i and, by well-formedness,
            // nowhere else
            proof {
                assert(rv[i as int].0 == id@);
                broadcast use vstd::seq_lib::group_filter_ensures;

                assert(rv =~= rv.take(i as int) + seq![rv[i as int]] + rv.skip(i + 1));
                Seq::filter_distributes_over_add(
                    rv.take(i as int) + seq![rv[i as int]],
                    rv.skip(i + 1),
                    pred,
                );
                Seq::filter_distributes_over_add(rv.take(i as int), seq![rv[i as int]], pred);
                lemma_filter_all(rv.take(i as int), pred);
                lemma_filter_one(rv[i as int], pred);
                assert(forall|m: int|
                    0 <= m < rv.skip(i + 1).len() ==> (#[trigger] rv.skip(i + 1)[m]) == rv[m + i
                        + 1]);
                lemma_filter_all(rv.skip(i + 1), pred);
                assert(rv.filter(pred) =~= rv.take(i as int) + rv.skip(i + 1));
            }
            let _old_entry = self.devices.remove(i);
            proof {
                assert(rview(self.devices@) =~= rv.take(i as int) + rv.skip(i + 1));
            }
            self.devices.push((id, info));
            proof {
                assert(rview(self.devices@) =~= rv.filter(pred).push((id@, info@)));
                assert(forall|m: int|
                    0 <= m < rv.filter(pred).len() ==> pred(#[trigger] rv.filter(pred)[m]));
                assert(distinct_ids(rview(self.devices@)));
            }
        } else {
            proof {
                lemma_filter_all(rv, pred);
            }
            self.devices.push((id, info));
            proof {
                assert(rview(self.devices@) =~= rv.filter(pred).push((id@, info@)));
                assert(distinct_ids(rview(self.devices@)));
            }
        }
    }

    /// Evict every record whose last beacon is older than the TTL; say
    /// whether membership changed.
    pub fn prune(&mut self, now: u64) -> (removed: bool)
        requires
            old(self).wf(),
        ensures
            final(self).wf(),
            final(self).instance_id == old(self).instance_id,
            final(self).name == old(self).name,
            final(self).ws_port == old(self).ws_port,
            rview(final(self).devices@) == spec_prune(rview(old(self).devices@), now),
            removed == (rview(final(self).devices@).len() != rview(old(self).devices@).len()),
    {
        let ghost rv = rview(self.devices@);
        let ghost pred = fresh_pred(now);
        let n = self.devices.len();
        let mut kept: Vec<(String, DeviceInfo)> = Vec::new();
        let mut i: usize = 0;
        proof {
            assert(rview(kept@) =~= rv.take(0).filter(fresh_pred(now)));
            assert(rv.take(0) =~= Seq::<(Seq<char>, DeviceInfoV)>::empty());
            reveal(Seq::filter);
        }
        while i < n
            invariant
                0 <= i <= n,
                n == self.devices.len(),
                rv == rview(self.devices@),
                rview(kept@) == rv.take(i as int).filter(fresh_pred(now)),
                forall|m: int|
                    0 <= m < rview(kept@).len() ==> exists|j: int|
                        0 <= j < i && (#[trigger] rview(kept@)[m]) == rv[j],
                distinct_ids(rv),
            decreases n - i,
        {
            let ls = self.devices[i].1.last_seen;
            let keep = now <= ls || now - ls <= DEVICE_TTL_MS;
            proof {
                assert(rv[i as int] == (self.devices@[i as int].0@, self.devices@[i as int].1@));
                assert(ls == self.devices@[i as int].1.last_seen);
                assert(rv[i as int].1 == self.devices@[i as int].1@);
                assert(self.devices@[i as int].1@.last_seen == ls);
                assert(fresh_at(rv[i as int], now) == (now as int - ls as int
                    <= DEVICE_TTL_MS));
                assert((now as int - ls as int <= DEVICE_TTL_MS) == keep);
                assert(fresh_pred(now)(rv[i as int]) == keep);
                assert(rv.take(i + 1) =~= rv.take(i as int) + seq![rv[i as int]]);
                Seq::filter_distributes_over_add(
                    rv.take(i as int),
                    seq![rv[i as int]],
                    fresh_pred(now),
                );
                lemma_filter_one(rv[i as int], fresh_pred(now));
            }
            if keep {
                let ghost kv = rview(kept@);
                kept.push((self.devices[i].0.clone(), self.devices[i].1.clone()));
                proof {
                    assert(rview(kept@) =~= kv.push(rv[i as int]));
                    assert(rview(kept@) =~= rv.take(i + 1).filter(fresh_pred(now)));
                }
            } else {
                proof {
                    assert(rv.take(i as int).filter(fresh_pred(now)) + Seq::<
                        (Seq<char>, DeviceInfoV),
                    >::empty() =~= rv.take(i as int).filter(fresh_pred(now)));
                }
            }
            i = i + 1;
        }
        proof {
            assert(rv.take(n as int) =~= rv);
        }
        let removed = kept.len() != self.devices.len();
        self.devices = kept;
        proof {
            // distinct ids survive eviction: every kept record is one of
            // the old ones, whose ids were pairwise distinct
            let kv = rview(self.devices@);
            assert forall|a: int, b: int| 0 <= a < b < kv.len() implies (#[trigger] kv[a]).0 != (
            #[trigger] kv[b]).0 by {
                let ja = choose|j: int| 0 <= j < n && kv[a] == rv[j];
                let jb = choose|j: int| 0 <= j < n && kv[b] == rv[j];
                if ja == jb {
                    broadcast use vstd::seq_lib::group_filter_ensures;

                    assert(kv.len() <= rv.len());
                    lemma_filter_distinct_positions(rv, pred, a, b);
                } else {
                    assert(rv[ja].0 != rv[jb].0);
                }
            }
        }
        removed
    }

    /// React to one inbound, already-parsed message, as
    /// [`spec_handle_reg`] and [`spec_handle_events`] describe: a foreign
    /// beacon updates the registry and reports a snapshot; a beacon of this
    /// host itself changes nothing; a control request for this host (or for
    /// anyone) is reported and decided elsewhere; a control response is
    /// reported as accepted, with its source address, or as declined.
    pub fn handle_message(&mut self, now: u64, msg: Message, src_ip: String) -> (events: Vec<
        DiscEvent,
    >)
        requires
            old(self).wf(),
        ensures
            final(self).wf(),
            final(self).instance_id == old(self).instance_id,
            final(self).name == old(self).name,
            final(self).ws_port == old(self).ws_port,
            rview(final(self).devices@) == spec_handle_reg(
                rview(old(self).devices@),
                msg@,
                old(self).instance_id@,
                now,
            ),
            eview(events@) == spec_handle_events(
                rview(old(self).devices@),
                msg@,
                old(self).instance_id@,
                old(self).ws_port,
                src_ip@,
                now,
            ),
    {
        let mut events: Vec<DiscEvent> = Vec::new();
        match msg {
            Message::Beacon { instance_id, name, ip, ws_port, version: _ } => {
                if instance_id == self.instance_id {
                    proof {
                        assert(eview(events@) =~= Seq::<DiscEventV>::empty());
                    }
                } else {
                    let info = DeviceInfo { name, ip, ws_port, last_seen: now };
                    let ghost idv = instance_id@;
                    let ghost infov = info@;
                    self.upsert(instance_id, info);
                    let snap = self.snapshot();
                    events.push(DiscEvent::DevicesChanged(snap));
                    proof {
                        assert(eview(events@) =~= seq![
                            DiscEventV::DevicesChanged(
                                vsnap(spec_upsert(rview(old(self).devices@), idv, infov)),
                            ),
                        ]);
                    }
                }
            },
            Message::RequestControl { from, to, name, ws_host, ws_port, options: _ } => {
                let for_me = match &to {
                    None => true,
                    Some(t) => *t == self.instance_id,
                };
                if for_me {
                    events.push(
                        DiscEvent::RequestReceived {
                            from_inst: from,
                            from_name: name,
                            ws_host,
                            ws_port,
                        },
                    );
                    proof {
                        assert(eview(events@) =~= seq![
                            DiscEventV::RequestReceived {
                                from_inst: from@,
                                from_name: name@,
                                ws_host: ws_host@,
                                ws_port,
                            },
                        ]);
                    }
                } else {
                    proof {
                        assert(eview(events@) =~= Seq::<DiscEventV>::empty());
                    }
                }
            },
            Message::ResponseControl { from, accepted } => {
                if accepted {
                    let port = match self.find_port(&from) {
                        Some(p) => p,
                        None => self.ws_port,
                    };
                    events.push(DiscEvent::ResponseAccepted { host: src_ip, port });
                    proof {
                        assert(eview(events@) =~= seq![
                            DiscEventV::ResponseAccepted {
                                host: src_ip@,
                                port: match spec_find_port(
                                    rview(old(self).devices@),
                                    from@,
                                ) {
                                    Some(p) => p,
                                    None => old(self).ws_port,
                                },
                            },
                        ]);
                    }
                } else {
                    events.push(DiscEvent::ResponseDeclined { from });
                    proof {
                        assert(eview(events@) =~= seq![DiscEventV::ResponseDeclined { from: from@ }]);
                    }
                }
            },
        }
        events
    }

    /// One round of the discovery loop, at clock `now`: broadcast a beacon
    /// when one is due, evict expired peers, and react to at most one
    /// inbound datagram `(text, source address)`. The caller performs the
    /// returned sends and deliveries; a datagram that does not parse is
    /// dropped silently.
    pub fn tick(
        &mut self,
        now: u64,
        last_beacon: &mut u64,
        self_ip: String,
        datagram: Option<(String, String)>,
    ) -> (r: TickOutcome)
        requires
            old(self).wf(),
        ensures
            final(self).wf(),
            final(self).instance_id == old(self).instance_id,
            final(self).name == old(self).name,
            final(self).ws_port == old(self).ws_port,
            now as int - *old(last_beacon) >= BEACON_INTERVAL_MS ==> *final(last_beacon) == now
                && (r.beacon matches Some(b) && b@ == sp_encode_msg(
                MessageV::Beacon {
                    instance_id: old(self).instance_id@,
                    name: old(self).name@,
                    ip: self_ip@,
                    ws_port: old(self).ws_port,
                    version: 1,
                },
            )),
            now as int - *old(last_beacon) < BEACON_INTERVAL_MS ==> *final(last_beacon) == *old(
                last_beacon,
            ) && r.beacon is None,
            rview(final(self).devices@) == spec_tick_reg(
                rview(old(self).devices@),
                now,
                spec_datagram_msg(datagram),
                old(self).instance_id@,
            ),
            eview(r.events@) == spec_tick_events(
                rview(old(self).devices@),
                now,
                spec_datagram_msg(datagram),
                spec_datagram_src(datagram),
                old(self).instance_id@,
                old(self).ws_port,
            ),
    {
        let due = now >= *last_beacon && now - *last_beacon >= BEACON_INTERVAL_MS;
        let beacon = if due {
            let msg = Message::Beacon {
                instance_id: self.instance_id.clone(),
                name: self.name.clone(),
                ip: self_ip,
                ws_port: self.ws_port,
                version: 1,
            };
            let txt = encode_message(&msg);
            *last_beacon = now;
            Some(txt)
        } else {
            None
        };
        let removed = self.prune(now);
        let mut events: Vec<DiscEvent> = Vec::new();
        if removed {
            let snap = self.snapshot();
            events.push(DiscEvent::DevicesChanged(snap));
            proof {
                assert(eview(events@) =~= spec_prune_events(rview(old(self).devices@), now));
            }
        } else {
            proof {
                assert(eview(events@) =~= spec_prune_events(rview(old(self).devices@), now));
            }
        }
        let ghost pruned_events = eview(events@);
        match datagram {
            None => {
                proof {
                    assert(eview(events@) =~= pruned_events + Seq::<DiscEventV>::empty());
                }
            },
            Some((text, src)) => {
                match parse_message(text.as_str()) {
                    None => {
                        proof {
                            assert(eview(events@) =~= pruned_events + Seq::<DiscEventV>::empty());
                        }
                    },
                    Some(m) => {
                        let mut more = self.handle_message(now, m, src);
                        let ghost morev = more@;
                        events.append(&mut more);
                        proof {
                            assert(eview(events@) =~= pruned_events + eview(morev));
                        }
                    },
                }
            },
        }
        TickOutcome { beacon, events }
    }

    /// The datagram text that asks `to` (or, with `to == None`, any
    /// listener) for control of its pointer, advertising this host's relay
    /// endpoint.
    pub fn request_datagram(&self, self_ip: String, to: Option<String>, options: MapMode) -> (r:
        String)
        ensures
            r@ == sp_encode_msg(
                MessageV::RequestControl {
                    from: self.instance_id@,
                    to: crate::codec::opt_str_view(to),
                    name: self.name@,
                    ws_host: self_ip@,
                    ws_port: self.ws_port,
                    options,
                },
            ),
    {
        let msg = Message::RequestControl {
            from: self.instance_id.clone(),
            to,
            name: self.name.clone(),
            ws_host: self_ip,
            ws_port: self.ws_port,
            options,
        };
        encode_message(&msg)
    }

    /// The datagram text that answers a control request.
    pub fn response_datagram(&self, accepted: bool) -> (r: String)
        ensures
            r@ == sp_encode_msg(
                MessageV::ResponseControl { from: self.instance_id@, accepted },
            ),
    {
        let msg = Message::ResponseControl { from: self.instance_id.clone(), accepted };
        encode_message(&msg)
    }
}

/// The message carried by an inbound datagram, if it parses.
pub open spec fn spec_datagram_msg(d: Option<(String, String)>) -> Option<MessageV> {
    match d {
        None => None,
        Some((text, src)) => sp_parse_msg(text@),
    }
}

/// The source address an inbound datagram arrived from.
pub open spec fn spec_datagram_src(d: Option<(String, String)>) -> Seq<char> {
    match d {
        None => Seq::empty(),
        Some((text, src)) => src@,
    }
}

/// The registry after one tick: eviction first, then at most one message.
pub open spec fn spec_tick_reg(
    r: Seq<(Seq<char>, DeviceInfoV)>,
    now: u64,
    om: Option<MessageV>,
    self_id: Seq<char>,
) -> Seq<(Seq<char>, DeviceInfoV)> {
    let r1 = spec_prune(r, now);
    match om {
        None => r1,
        Some(m) => spec_handle_reg(r1, m, self_id, now),
    }
}

/// The events eviction causes: one snapshot when membership changed.
pub open spec fn spec_prune_events(r: Seq<(Seq<char>, DeviceInfoV)>, now: u64) -> Seq<DiscEventV> {
    let r1 = spec_prune(r, now);
    if r1.len() != r.len() {
        seq![DiscEventV::DevicesChanged(vsnap(r1))]
    } else {
        Seq::empty()
    }
}

/// The events of one tick, in delivery order: those of eviction, then
/// those of the inbound message, if one arrived and parsed.
pub open spec fn spec_tick_events(
    r: Seq<(Seq<char>, DeviceInfoV)>,
    now: u64,
    om: Option<MessageV>,
    src: Seq<char>,
    self_id: Seq<char>,
    self_port: u16,
) -> Seq<DiscEventV> {
    let r1 = spec_prune(r, now);
    spec_prune_events(r, now) + match om {
        None => Seq::<DiscEventV>::empty(),
        Some(m) => spec_handle_events(r1, m, self_id, self_port, src, now),
    }
}

/// Two positions of a filtered sequence never hold the same occurrence: if
/// the source has pairwise distinct ids, so has the filtered sequence.
proof fn lemma_filter_distinct_positions(
    r: Seq<(Seq<char>, DeviceInfoV)>,
    pred: spec_fn((Seq<char>, DeviceInfoV)) -> bool,
    a: int,
    b: int,
)
    requires
        distinct_ids(r),
        0 <= a < b < r.filter(pred).len(),
    ensures
        r.filter(pred)[a].0 != r.filter(pred)[b].0,
    decreases r.len(),
{
    reveal(Seq::filter);
    if r.len() > 0 {
        let f = r.filter(pred);
        let fd = r.drop_last().filter(pred);
        assert(forall|i: int, j: int|
            0 <= i < j < r.drop_last().len() ==> (#[trigger] r.drop_last()[i]).0 != (
            #[trigger] r.drop_last()[j]).0);
        if pred(r.last()) {
            assert(f == fd.push(r.last()));
            if b < f.len() - 1 {
                lemma_filter_distinct_positions(r.drop_last(), pred, a, b);
            } else {
                // f[b] is the last entry of r; f[a] comes from the front
                assert(f[b] == r.last());
                assert(f[a] == fd[a]);
                lemma_filter_element_of(r.drop_last(), pred, a);
                let j = choose|j: int|
                    0 <= j < r.drop_last().len() && (#[trigger] r.drop_last()[j]) == fd[a];
                assert(r[j] == fd[a]);
                assert(r[j].0 != r.last().0);
            }
        } else {
            lemma_filter_distinct_positions(r.drop_last(), pred, a, b);
        }
    }
}

/// Retention and eviction are exact: after a prune at `now`, a peer id is
/// present exactly when some record of it was present and still fresh —
/// within the TTL, a peer that missed beacons remains; one whose last
/// beacon is older than the TTL is gone.
pub proof fn law_peer_retention(r: Seq<(Seq<char>, DeviceInfoV)>, id: Seq<char>, now: u64)
    ensures
        has_id(spec_prune(r, now), id) <==> exists|i: int|
            0 <= i < r.len() && (#[trigger] r[i]).0 == id && fresh_at(r[i], now),
{
    broadcast use vstd::seq_lib::group_filter_ensures;

    let f = spec_prune(r, now);
    if has_id(f, id) {
        let j = choose|j: int| 0 <= j < f.len() && (#[trigger] f[j]).0 == id;
        lemma_filter_element_of(r, fresh_pred(now), j);
        let k = choose|k: int| 0 <= k < r.len() && (#[trigger] r[k]) == f[j];
        assert(fresh_pred(now)(f[j]));
        assert(r[k].0 == id && fresh_at(r[k], now));
    }
    if exists|i: int| 0 <= i < r.len() && (#[trigger] r[i]).0 == id && fresh_at(r[i], now) {
        let i = choose|i: int| 0 <= i < r.len() && (#[trigger] r[i]).0 == id && fresh_at(r[i], now);
        assert(fresh_pred(now)(r[i]));
        r.lemma_filter_contains(fresh_pred(now), i);
        assert(f.contains(r[i]));
        let j = choose|j: int| 0 <= j < f.len() && f[j] == r[i];
        assert(f[j].0 == id);
    }
}

/// A beacon carrying this host's own id never enters the registry and
/// causes no event, however it was received.
pub proof fn law_self_beacon_ignored(
    r: Seq<(Seq<char>, DeviceInfoV)>,
    name: Seq<char>,
    ip: Seq<char>,
    ws_port: u16,
    version: u32,
    self_id: Seq<char>,
    self_port: u16,
    src: Seq<char>,
    now: u64,
)
    ensures
        spec_handle_reg(
            r,
            MessageV::Beacon { instance_id: self_id, name, ip, ws_port, version },
            self_id,
            now,
        ) == r,
        spec_handle_events(
            r,
            MessageV::Beacon { instance_id: self_id, name, ip, ws_port, version },
            self_id,
            self_port,
            src,
            now,
        ) == Seq::<DiscEventV>::empty(),
{
}

/// A control request addressed to a foreign id is ignored by a responder
/// whose id does not match: no event, no state change.
pub proof fn law_foreign_request_ignored(
    r: Seq<(Seq<char>, DeviceInfoV)>,
    from: Seq<char>,
    to_id: Seq<char>,
    name: Seq<char>,
    ws_host: Seq<char>,
    ws_port: u16,
    options: MapMode,
    self_id: Seq<char>,
    self_port: u16,
    src: Seq<char>,
    now: u64,
)
    requires
        to_id != self_id,
    ensures
        spec_handle_reg(
            r,
            MessageV::RequestControl { from, to: Some(to_id), name, ws_host, ws_port, options },
            self_id,
            now,
        ) == r,
        spec_handle_events(
            r,
            MessageV::RequestControl { from, to: Some(to_id), name, ws_host, ws_port, options },
            self_id,
            self_port,
            src,
            now,
        ) == Seq::<DiscEventV>::empty(),
{
}

/// An accepting control response yields exactly one acceptance event, and
/// it carries the source address the response arrived from.
pub proof fn law_acceptance_event(
    r: Seq<(Seq<char>, DeviceInfoV)>,
    from: Seq<char>,
    self_id: Seq<char>,
    self_port: u16,
    src: Seq<char>,
    now: u64,
)
    ensures
        ({
            let evs = spec_handle_events(
                r,
                MessageV::ResponseControl { from, accepted: true },
                self_id,
                self_port,
                src,
                now,
            );
            &&& evs.len() == 1
            &&& (evs[0] matches DiscEventV::ResponseAccepted { host, port } && host == src)
        }),
{
}

/// A declining control response never yields an acceptance event.
pub proof fn law_decline_no_acceptance(
    r: Seq<(Seq<char>, DeviceInfoV)>,
    from: Seq<char>,
    self_id: Seq<char>,
    self_port: u16,
    src: Seq<char>,
    now: u64,
)
    ensures
        ({
            let evs = spec_handle_events(
                r,
                MessageV::ResponseControl { from, accepted: false },
                self_id,
                self_port,
                src,
                now,
            );
            forall|i: int|
                0 <= i < evs.len() ==> !((#[trigger] evs[i]) matches DiscEventV::ResponseAccepted {
                    ..
                })
        }),
{
}

/// Every entry of a filtered sequence is an entry of the source.
proof fn lemma_filter_element_of(
    r: Seq<(Seq<char>, DeviceInfoV)>,
    pred: spec_fn((Seq<char>, DeviceInfoV)) -> bool,
    a: int,
)
    requires
        0 <= a < r.filter(pred).len(),
    ensures
        exists|j: int| 0 <= j < r.len() && (#[trigger] r[j]) == r.filter(pred)[a],
    decreases r.len(),
{
    reveal(Seq::filter);
    if r.len() > 0 {
        let f = r.filter(pred);
        let fd = r.drop_last().filter(pred);
        if pred(r.last()) {
            if a < f.len() - 1 {
                lemma_filter_element_of(r.drop_last(), pred, a);
                let j = choose|j: int|
                    0 <= j < r.drop_last().len() && r.drop_last()[j] == fd[a];
                assert(r[j] == f[a]);
            } else {
                assert(r[r.len() - 1] == f[a]);
            }
        } else {
            lemma_filter_element_of(r.drop_last(), pred, a);
            let j = choose|j: int| 0 <= j < r.drop_last().len() && r.drop_last()[j] == fd[a];
            assert(r[j] == f[a]);
        }
    }
}

} // verus!
