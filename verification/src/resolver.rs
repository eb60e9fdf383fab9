use vstd::prelude::*;

use crate::header::DnsHeader;
use crate::packet::{a_addrs, resolved_ns, unresolved_ns, DnsPacket, PacketModel};
use crate::query_class::QueryClass;
use crate::query_type::QueryType;
use crate::question::{DnsQuestion, QuestionModel};
use crate::record::Ipv4Addr;
use crate::result_code::ResultCode;

verus! {

/// The well-known root server address every resolution starts from.
pub open spec fn spec_root_server() -> Ipv4Addr {
    Ipv4Addr { o0: 198, o1: 41, o2: 0, o3: 4 }
}

/// The well-known root server address every resolution starts from.
pub fn root_server() -> (r: Ipv4Addr)
    ensures
        r == spec_root_server(),
{
    Ipv4Addr::new(198, 41, 0, 4)
}

/// A response is terminal: it answers the question, or it says the name
/// does not exist.
pub open spec fn is_terminal(m: PacketModel) -> bool {
    (m.answers.len() > 0 && m.header.result_code == ResultCode::NOERROR) || m.header.result_code
        == ResultCode::NXDOMAIN
}

/// The query message one lookup sends: a fixed correlation id, recursion
/// desired, and the single question.
pub fn build_query(qname: String, qtype: QueryType, qclass: QueryClass) -> (p: DnsPacket)
    ensures
        p.header.id == 6666,
        p.header.questions_count == 1,
        p.header.recursion_desired,
        !p.header.is_response,
        p.header.wf(),
        p@.questions =~= seq![QuestionModel { name: qname@, qtype, qclass }],
        p@.answers.len() == 0,
        p@.authorities.len() == 0,
        p@.additionals.len() == 0,
{
    let mut packet = DnsPacket::new();
    packet.header.id = 6666;
    packet.header.questions_count = 1;
    packet.header.recursion_desired = true;
    packet.questions.push(DnsQuestion::new(qname, qtype, qclass));
    packet
}

/// One pending lookup: its question, the server to ask next, and — while a
/// sub-lookup for a name server's own address runs below it — the response
/// that prompted that sub-lookup.
pub struct ResolverFrame {
    pub qname: String,
    pub qtype: QueryType,
    pub qclass: QueryClass,
    pub ns: Ipv4Addr,
    pub saved: Option<DnsPacket>,
}

/// What the driver must do next: send the question to the server and hand
/// the decoded response back, or stop with the finished packet.
pub enum ResolverAction {
    Query { server: Ipv4Addr, qname: String, qtype: QueryType, qclass: QueryClass },
    Done { packet: DnsPacket },
}

/// The iterative resolver as a state machine.  The driver performs the
/// exchanges; every decision stands here.  A stack of frames carries the
/// recursive sub-lookups for name servers that came without glue; it is as
/// unbounded as the delegation chains it follows.
pub struct Resolver {
    pub stack: Vec<ResolverFrame>,
}

impl Resolver {
    /// Every frame below the top holds the response that made it push a
    /// sub-lookup.
    pub open spec fn wf(&self) -> bool {
        forall|i: int| 0 <= i < self.stack@.len() - 1 ==> (#[trigger] self.stack@[i]).saved is Some
    }

    /// A resolution is underway.
    pub open spec fn active(&self) -> bool {
        self.stack@.len() > 0 && self.wf()
    }

    /// The frame whose response comes next.
    pub open spec fn top(&self) -> ResolverFrame {
        self.stack@.last()
    }

    /// Begin a resolution: one frame, aimed at the root server.
    pub fn start(qname: String, qtype: QueryType, qclass: QueryClass) -> (r: (
        Resolver,
        ResolverAction,
    ))
        ensures
            r.0.active(),
            r.0.stack@.len() == 1,
            r.0.top().qname@ == qname@,
            r.0.top().qtype == qtype,
            r.0.top().qclass == qclass,
            r.0.top().ns == spec_root_server(),
            (r.1 matches ResolverAction::Query { server, qname: q, qtype: t, qclass: c } && server
                == spec_root_server() && q@ == qname@ && t == qtype && c == qclass),
    {
        let ns = root_server();
        let action = ResolverAction::Query {
            server: ns,
            qname: qname.clone(),
            qtype,
            qclass,
        };
        let mut stack: Vec<ResolverFrame> = Vec::new();
        stack.push(ResolverFrame { qname, qtype, qclass, ns, saved: None });
        (Resolver { stack }, action)
    }

    /// Consume the response to the top frame's query and decide what comes
    /// next.
    ///
    /// A terminal response — one with answers and status `NOERROR`, or one
    /// with status `NXDOMAIN` — ends its lookup and comes back unchanged
    /// when it answers the top-level question.  A delegation with glue
    /// re-aims the same question at the glue address.  A delegation without
    /// glue pushes a sub-lookup for the name server's own address, aimed at
    /// the root.  Anything else ends the lookup with this response as the
    /// best answer available.
    pub fn on_response(&mut self, response: DnsPacket) -> (action: ResolverAction)
        requires
            old(self).active(),
        ensures
            final(self).wf(),
            action is Query ==> final(self).active(),
            action is Done ==> final(self).stack@.len() == 0,
            // A terminal response to the top-level question is returned as is.
            old(self).stack@.len() == 1 && is_terminal(response@) ==> action == (
            ResolverAction::Done { packet: response }),
            // A delegation with glue re-aims the same question at the glue address.
            !is_terminal(response@) && resolved_ns(response@, old(self).top().qname@) is Some ==> (
            action matches ResolverAction::Query { server, qname, qtype, qclass } && Some(server)
                == resolved_ns(response@, old(self).top().qname@) && qname@ == old(
                self,
            ).top().qname@ && qtype == old(self).top().qtype && qclass == old(self).top().qclass
                && final(self).stack@.len() == old(self).stack@.len()),
            // A delegation without glue pushes a sub-lookup for the server's address.
            (!is_terminal(response@) && resolved_ns(response@, old(self).top().qname@) is None
                && unresolved_ns(response@, old(self).top().qname@) is Some) ==> (
            action matches ResolverAction::Query { server, qname, qtype, qclass } && server
                == spec_root_server() && Some(qname@) == unresolved_ns(
                response@,
                old(self).top().qname@,
            ) && qtype == QueryType::A && qclass == QueryClass::IN && final(self).stack@.len()
                == old(self).stack@.len() + 1),
            // No answer, no delegation: the response is the best answer there is.
            (old(self).stack@.len() == 1 && !is_terminal(response@) && resolved_ns(
                response@,
                old(self).top().qname@,
            ) is None && unresolved_ns(response@, old(self).top().qname@) is None) ==> action == (
            ResolverAction::Done { packet: response }),
            // A sub-lookup of a top-level query that ends with no address in
            // its answers lets that query finish with the response it saved
            // when it pushed the sub-lookup.
            (old(self).stack@.len() == 2 && a_addrs(response@.answers).len() == 0 && (is_terminal(
                response@,
            ) || (resolved_ns(response@, old(self).top().qname@) is None && unresolved_ns(
                response@,
                old(self).top().qname@,
            ) is None))) ==> (action matches ResolverAction::Done { packet } && old(
                self,
            ).stack@[0].saved == Some(packet)),
    {
        let terminal = (response.answers.len() > 0 && response.header.result_code
            == ResultCode::NOERROR) || response.header.result_code == ResultCode::NXDOMAIN;
        if terminal {
            return self.finish(response);
        }
        let top_idx = self.stack.len() - 1;
        let resolved = response.get_resolved_ns(self.stack[top_idx].qname.as_str());
        if let Some(addr) = resolved {
            let mut top = self.stack.pop().unwrap();
            top.ns = addr;
            let action = ResolverAction::Query {
                server: addr,
                qname: top.qname.clone(),
                qtype: top.qtype,
                qclass: top.qclass,
            };
            self.stack.push(top);
            return action;
        }
        let unresolved: Option<String> = match response.get_unresolved_ns(
            self.stack[top_idx].qname.as_str(),
        ) {
            Some(h) => Some(h.to_owned()),
            None => None,
        };
        if let Some(host) = unresolved {
            let mut top = self.stack.pop().unwrap();
            top.saved = Some(response);
            self.stack.push(top);
            let ns = root_server();
            let action = ResolverAction::Query {
                server: ns,
                qname: host.clone(),
                qtype: QueryType::A,
                qclass: QueryClass::IN,
            };
            self.stack.push(
                ResolverFrame {
                    qname: host,
                    qtype: QueryType::A,
                    qclass: QueryClass::IN,
                    ns,
                    saved: None,
                },
            );
            return action;
        }
        self.finish(response)
    }

    /// Unwind finished lookups.  The top frame has finished with `result`:
    /// the top-level frame hands it out; a sub-lookup hands its parent a
    /// randomly chosen answer address to query next, or — when it brought
    /// no address — lets the parent finish with the response it had saved,
    /// not with an error.
    fn finish(&mut self, result: DnsPacket) -> (action: ResolverAction)
        requires
            old(self).active(),
        ensures
            final(self).wf(),
            action is Query ==> final(self).active(),
            action is Done ==> final(self).stack@.len() == 0,
            old(self).stack@.len() == 1 ==> action == (ResolverAction::Done { packet: result }),
            old(self).stack@.len() > 1 && a_addrs(result@.answers).len() > 0 ==> (
            action matches ResolverAction::Query { server, qname, qtype, qclass } && a_addrs(
                result@.answers,
            ).contains(server) && qname@ == old(self).stack@[old(self).stack@.len() - 2].qname@
                && qtype == old(self).stack@[old(self).stack@.len() - 2].qtype && qclass == old(
                self,
            ).stack@[old(self).stack@.len() - 2].qclass && final(self).stack@.len() == old(
                self,
            ).stack@.len() - 1),
            // A fruitless sub-lookup of a top-level query lets that query
            // finish with the response it had saved.
            old(self).stack@.len() == 2 && a_addrs(result@.answers).len() == 0 ==> (
            action matches ResolverAction::Done { packet } && old(self).stack@[0].saved == Some(
                packet,
            )),
    {
        let mut current = result;
        loop
            invariant
                self.stack@.len() >= 1,
                self.wf(),
                (self.stack@ == old(self).stack@ && current == result) || (self.stack@.len() < old(
                    self,
                ).stack@.len() && old(self).stack@.len() > 1 && a_addrs(result@.answers).len()
                    == 0 && (old(self).stack@.len() == 2 ==> self.stack@.len() == 1 && old(
                    self,
                ).stack@[0].saved == Some(current))),
            decreases self.stack@.len(),
        {
            if self.stack.len() == 1 {
                let _ = self.stack.pop();
                return ResolverAction::Done { packet: current };
            }
            match current.get_random_a() {
                Some(addr) => {
                    let _ = self.stack.pop();
                    let mut parent = self.stack.pop().unwrap();
                    parent.ns = addr;
                    let action = ResolverAction::Query {
                        server: addr,
                        qname: parent.qname.clone(),
                        qtype: parent.qtype,
                        qclass: parent.qclass,
                    };
                    self.stack.push(parent);
                    return action;
                },
                None => {
                    proof {
                        assert(self.stack@[self.stack@.len() - 2].saved is Some);
                    }
                    let _ = self.stack.pop();
                    let parent = self.stack.pop().unwrap();
                    current = parent.saved.unwrap();
                    self.stack.push(
                        ResolverFrame {
                            qname: parent.qname,
                            qtype: parent.qtype,
                            qclass: parent.qclass,
                            ns: parent.ns,
                            saved: None,
                        },
                    );
                },
            }
        }
    }
}

} // verus!
