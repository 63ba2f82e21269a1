//! Answers: the records of a reply and the rules that every reply obeys.

use crate::cache::reply_ttl;
use crate::dns::{DefaultSOA, RData, SOA};
use crate::ip::IpAddr;
use crate::name::Name;
use vstd::prelude::*;

verus! {

/// The record type of an IPv4 address.
pub const TYPE_A: u16 = 1;

/// The record type of an IPv6 address.
pub const TYPE_AAAA: u16 = 28;

/// How a query ended.
#[derive(Debug, Clone, Copy, PartialEq, Eq, Hash, Structural)]
pub enum Rcode {
    NoError,
    ServFail,
    NxDomain,
    Refused,
}

/// A resource record.
#[derive(Debug, PartialEq, Eq, Hash)]
pub struct Record {
    pub name: Name,
    /// Seconds for which the record may be kept.
    pub ttl: u32,
    pub data: RData,
}

/// The mathematical content of the data of a record.
pub enum DataSpec {
    A(u32),
    AAAA(u128),
    CNAME(Seq<Seq<u8>>),
    SOA(Seq<Seq<u8>>, Seq<Seq<u8>>, u32, i32, i32, i32, u32),
}

/// The mathematical content of a `Record`.
pub struct RecordSpec {
    pub name: Seq<Seq<u8>>,
    pub ttl: u32,
    pub data: DataSpec,
}

/// The view of the data of a record.
pub open spec fn data_view(d: RData) -> DataSpec {
    match d {
        RData::A(v) => DataSpec::A(v),
        RData::AAAA(v) => DataSpec::AAAA(v),
        RData::CNAME(n) => DataSpec::CNAME(n@),
        RData::SOA(s) => DataSpec::SOA(
            s.mname@,
            s.rname@,
            s.serial,
            s.refresh,
            s.retry,
            s.expire,
            s.minimum,
        ),
    }
}

impl View for Record {
    type V = RecordSpec;

    open spec fn view(&self) -> RecordSpec {
        RecordSpec { name: self.name@, ttl: self.ttl, data: data_view(self.data) }
    }
}

/// The views of a list of records.
pub open spec fn records_view(v: Seq<Record>) -> Seq<RecordSpec> {
    Seq::new(v.len(), |i: int| v[i]@)
}

impl DataSpec {
    /// The address that the data is, if it is one.
    pub open spec fn address(self) -> Option<IpAddr> {
        match self {
            DataSpec::A(v) => Some(IpAddr::V4(v)),
            DataSpec::AAAA(v) => Some(IpAddr::V6(v)),
            _ => None,
        }
    }
}

/// A copy of the data of a record.
pub fn clone_data(d: &RData) -> (out: RData)
    ensures
        data_view(out) == data_view(*d),
{
    match d {
        RData::A(v) => RData::A(*v),
        RData::AAAA(v) => RData::AAAA(*v),
        RData::CNAME(n) => RData::CNAME(n.clone()),
        RData::SOA(s) => RData::SOA(
            SOA {
                mname: s.mname.clone(),
                rname: s.rname.clone(),
                serial: s.serial,
                refresh: s.refresh,
                retry: s.retry,
                expire: s.expire,
                minimum: s.minimum,
            },
        ),
    }
}

impl Clone for Record {
    fn clone(&self) -> (out: Self)
        ensures
            out@ == self@,
    {
        Record { name: self.name.clone(), ttl: self.ttl, data: clone_data(&self.data) }
    }
}

impl Record {
    /// The address that the record holds, if it holds one.
    pub fn address(&self) -> (a: Option<IpAddr>)
        ensures
            a == self@.data.address(),
    {
        match &self.data {
            RData::A(v) => Some(IpAddr::V4(*v)),
            RData::AAAA(v) => Some(IpAddr::V6(*v)),
            _ => None,
        }
    }
}

/// The time to live of a record in a reply: that of the record, cut down to
/// `reply_max` where that is set.
pub open spec fn capped(r: RecordSpec, reply_max: Option<u64>) -> RecordSpec {
    RecordSpec { ttl: reply_ttl(r.ttl as u64, reply_max) as u32, ..r }
}

/// The records with their times to live cut down to `reply_max`.
pub fn cap_records(records: &Vec<Record>, reply_max: Option<u64>) -> (out: Vec<Record>)
    ensures
        out@.len() == records@.len(),
        forall|i: int| 0 <= i < out@.len() ==> (#[trigger] out@[i])@ == capped(records@[i]@, reply_max),
        reply_max matches Some(hi) ==> forall|i: int|
            0 <= i < out@.len() ==> (#[trigger] out@[i]).ttl <= hi,
{
    let mut out: Vec<Record> = Vec::new();
    let mut i: usize = 0;
    while i < records.len()
        invariant
            i <= records.len(),
            out@.len() == i,
            forall|k: int| 0 <= k < i ==> (#[trigger] out@[k])@ == capped(records@[k]@, reply_max),
        decreases records.len() - i,
    {
        let r = &records[i];
        let ttl = match reply_max {
            Some(hi) => if r.ttl as u64 > hi {
                hi as u32
            } else {
                r.ttl
            },
            None => r.ttl,
        };
        out.push(Record { name: r.name.clone(), ttl, data: clone_data(&r.data) });
        i += 1;
    }
    out
}

/// A reply.
#[derive(Debug, PartialEq, Eq, Hash)]
pub struct Message {
    pub rcode: Rcode,
    pub answer: Vec<Record>,
    pub authority: Vec<Record>,
    pub additional: Vec<Record>,
}

/// The mathematical content of a `Message`.
pub struct MessageSpec {
    pub rcode: Rcode,
    pub answer: Seq<RecordSpec>,
    pub authority: Seq<RecordSpec>,
    pub additional: Seq<RecordSpec>,
}

impl View for Message {
    type V = MessageSpec;

    open spec fn view(&self) -> MessageSpec {
        MessageSpec {
            rcode: self.rcode,
            answer: records_view(self.answer@),
            authority: records_view(self.authority@),
            additional: records_view(self.additional@),
        }
    }
}

/// The records with their times to live cut down to `reply_max`.
pub open spec fn capped_all(rs: Seq<RecordSpec>, reply_max: Option<u64>) -> Seq<RecordSpec> {
    Seq::new(rs.len(), |i: int| capped(rs[i], reply_max))
}

/// The data of the default start-of-authority record.
pub open spec fn default_soa_data() -> DataSpec {
    DataSpec::SOA(
        crate::dns::default_soa_mname(),
        crate::dns::default_soa_rname(),
        1800,
        1800,
        900,
        604800,
        86400,
    )
}

/// The made-up reply that says "no such data" for `name`.
pub open spec fn soa_message(name: Seq<Seq<u8>>, ttl: u32) -> MessageSpec {
    MessageSpec {
        rcode: Rcode::NoError,
        answer: Seq::empty(),
        authority: seq![RecordSpec { name, ttl, data: default_soa_data() }],
        additional: Seq::empty(),
    }
}

/// The reply that answers a query for `name` with the one address `ip`.
pub open spec fn address_message(name: Seq<Seq<u8>>, ip: IpAddr, ttl: u32) -> MessageSpec {
    MessageSpec {
        rcode: Rcode::NoError,
        answer: seq![
            RecordSpec {
                name,
                ttl,
                data: match ip {
                    IpAddr::V4(v) => DataSpec::A(v),
                    IpAddr::V6(v) => DataSpec::AAAA(v),
                },
            },
        ],
        authority: Seq::empty(),
        additional: Seq::empty(),
    }
}

/// The data of a record that holds the address `ip`.
pub open spec fn address_data(ip: IpAddr) -> DataSpec {
    match ip {
        IpAddr::V4(v) => DataSpec::A(v),
        IpAddr::V6(v) => DataSpec::AAAA(v),
    }
}

/// The reply that answers a query for `name` with the given addresses, one
/// record for each, in their order.
pub open spec fn addresses_message(name: Seq<Seq<u8>>, ips: Seq<IpAddr>, ttl: u32) -> MessageSpec {
    MessageSpec {
        rcode: Rcode::NoError,
        answer: Seq::new(ips.len(), |i: int| RecordSpec { name, ttl, data: address_data(ips[i]) }),
        authority: Seq::empty(),
        additional: Seq::empty(),
    }
}

/// The reply that says that the upstream servers failed.
pub open spec fn servfail_message() -> MessageSpec {
    MessageSpec {
        rcode: Rcode::ServFail,
        answer: Seq::empty(),
        authority: Seq::empty(),
        additional: Seq::empty(),
    }
}

impl MessageSpec {
    /// The reply as it is sent: every record of every section has its time
    /// to live cut down to `reply_max`.
    pub open spec fn sent(self, reply_max: Option<u64>) -> MessageSpec {
        MessageSpec {
            rcode: self.rcode,
            answer: capped_all(self.answer, reply_max),
            authority: capped_all(self.authority, reply_max),
            additional: capped_all(self.additional, reply_max),
        }
    }

    /// Every record of the reply, section by section.
    pub open spec fn all(self) -> Seq<RecordSpec> {
        self.answer + self.authority + self.additional
    }

    /// Whether the reply says "no such data" in the way of a made-up
    /// answer: no error, no answer, and the default start-of-authority
    /// record for `name` as its one authority record, with the time to live
    /// `ttl`.
    pub open spec fn is_soa_for(self, name: Seq<Seq<u8>>, ttl: u32) -> bool {
        &&& self.rcode == Rcode::NoError
        &&& self.answer.len() == 0
        &&& self.additional.len() == 0
        &&& self.authority.len() == 1
        &&& self.authority[0].name == name
        &&& self.authority[0].ttl == ttl
        &&& self.authority[0].data == default_soa_data()
    }
}

impl Message {
    /// The reply as it is sent: every record of every section has its time
    /// to live cut down to `reply_max`, and nothing else is changed.
    pub fn for_reply(&self, reply_max: Option<u64>) -> (out: Message)
        ensures
            out@ == self@.sent(reply_max),
            out@.rcode == self@.rcode,
            out@.answer.len() == self@.answer.len(),
            out@.authority.len() == self@.authority.len(),
            out@.additional.len() == self@.additional.len(),
            forall|i: int|
                0 <= i < self@.answer.len() ==> #[trigger] out@.answer[i] == capped(
                    self@.answer[i],
                    reply_max,
                ),
            forall|i: int|
                0 <= i < self@.authority.len() ==> #[trigger] out@.authority[i] == capped(
                    self@.authority[i],
                    reply_max,
                ),
            forall|i: int|
                0 <= i < self@.additional.len() ==> #[trigger] out@.additional[i] == capped(
                    self@.additional[i],
                    reply_max,
                ),
            reply_max matches Some(hi) ==> forall|i: int|
                0 <= i < out@.all().len() ==> (#[trigger] out@.all()[i]).ttl <= hi,
    {
        let answer = cap_records(&self.answer, reply_max);
        let authority = cap_records(&self.authority, reply_max);
        let additional = cap_records(&self.additional, reply_max);
        let out = Message { rcode: self.rcode, answer, authority, additional };
        proof {
            assert forall|i: int| 0 <= i < self@.answer.len() implies #[trigger] out@.answer[i]
                == capped(self@.answer[i], reply_max) by {
                assert(out.answer@[i]@ == capped(self.answer@[i]@, reply_max));
            }
            assert forall|i: int|
                0 <= i < self@.authority.len() implies #[trigger] out@.authority[i] == capped(
                self@.authority[i],
                reply_max,
            ) by {
                assert(out.authority@[i]@ == capped(self.authority@[i]@, reply_max));
            }
            assert forall|i: int|
                0 <= i < self@.additional.len() implies #[trigger] out@.additional[i] == capped(
                self@.additional[i],
                reply_max,
            ) by {
                assert(out.additional@[i]@ == capped(self.additional@[i]@, reply_max));
            }
            assert(out@.answer =~= capped_all(self@.answer, reply_max));
            assert(out@.authority =~= capped_all(self@.authority, reply_max));
            assert(out@.additional =~= capped_all(self@.additional, reply_max));
            if let Some(hi) = reply_max {
                assert forall|i: int| 0 <= i < out@.all().len() implies (#[trigger] out@.all()[i]).ttl
                    <= hi by {
                    let a = out@.answer.len();
                    let b = out@.authority.len();
                    if i < a {
                        assert(out@.all()[i] == out@.answer[i]);
                    } else if i < a + b {
                        assert(out@.all()[i] == out@.authority[i - a]);
                    } else {
                        assert(out@.all()[i] == out@.additional[i - a - b]);
                    }
                }
            }
        }
        out
    }

    /// The reply that says that the upstream servers failed: a server
    /// failure without records.
    pub fn servfail() -> (out: Message)
        ensures
            out@ == servfail_message(),
            out@.rcode == Rcode::ServFail,
            out@.all().len() == 0,
    {
        let out = Message {
            rcode: Rcode::ServFail,
            answer: Vec::new(),
            authority: Vec::new(),
            additional: Vec::new(),
        };
        assert(out@.all() =~= Seq::<RecordSpec>::empty());
        assert(out@.answer =~= Seq::<RecordSpec>::empty());
        assert(out@.authority =~= Seq::<RecordSpec>::empty());
        assert(out@.additional =~= Seq::<RecordSpec>::empty());
        out
    }

    /// The made-up reply that says "no such data" for `name`: no error, no
    /// answer, and the default start-of-authority record as its authority.
    pub fn soa_for(name: &Name, ttl: u32) -> (out: Message)
        ensures
            out@ == soa_message(name@, ttl),
            out@.is_soa_for(name@, ttl),
    {
        let soa = SOA::default_soa();
        let mut authority: Vec<Record> = Vec::new();
        authority.push(Record { name: name.clone(), ttl, data: RData::SOA(soa) });
        let out = Message {
            rcode: Rcode::NoError,
            answer: Vec::new(),
            authority,
            additional: Vec::new(),
        };
        assert(out@.authority[0] == out.authority@[0]@);
        assert(out@.answer =~= Seq::<RecordSpec>::empty());
        assert(out@.additional =~= Seq::<RecordSpec>::empty());
        assert(out@.authority =~= soa_message(name@, ttl).authority);
        out
    }

    /// The reply that answers a query for `name` with the given addresses.
    pub fn addresses_for(name: &Name, ips: &Vec<IpAddr>, ttl: u32) -> (out: Message)
        ensures
            out@ == addresses_message(name@, ips@, ttl),
    {
        let mut answer: Vec<Record> = Vec::new();
        let mut i: usize = 0;
        while i < ips.len()
            invariant
                i <= ips.len(),
                answer@.len() == i,
                forall|k: int|
                    0 <= k < i ==> (#[trigger] answer@[k])@ == (RecordSpec {
                        name: name@,
                        ttl,
                        data: address_data(ips@[k]),
                    }),
            decreases ips.len() - i,
        {
            let data = match ips[i] {
                IpAddr::V4(v) => RData::A(v),
                IpAddr::V6(v) => RData::AAAA(v),
            };
            answer.push(Record { name: name.clone(), ttl, data });
            i += 1;
        }
        let out = Message {
            rcode: Rcode::NoError,
            answer,
            authority: Vec::new(),
            additional: Vec::new(),
        };
        assert(out@.answer =~= addresses_message(name@, ips@, ttl).answer);
        assert(out@.authority =~= Seq::<RecordSpec>::empty());
        assert(out@.additional =~= Seq::<RecordSpec>::empty());
        out
    }

    /// The reply that answers a query for `name` with the one address `ip`.
    pub fn address_for(name: &Name, ip: IpAddr, ttl: u32) -> (out: Message)
        ensures
            out@ == address_message(name@, ip, ttl),
            out@.rcode == Rcode::NoError,
            out@.answer.len() == 1,
            out@.answer[0].name == name@,
            out@.answer[0].ttl == ttl,
            out@.answer[0].data.address() == Some(ip),
            out@.authority.len() == 0,
            out@.additional.len() == 0,
    {
        let data = match ip {
            IpAddr::V4(v) => RData::A(v),
            IpAddr::V6(v) => RData::AAAA(v),
        };
        let mut answer: Vec<Record> = Vec::new();
        answer.push(Record { name: name.clone(), ttl, data });
        let out = Message {
            rcode: Rcode::NoError,
            answer,
            authority: Vec::new(),
            additional: Vec::new(),
        };
        assert(out@.answer[0] == out.answer@[0]@);
        assert(out@.answer =~= address_message(name@, ip, ttl).answer);
        assert(out@.authority =~= Seq::<RecordSpec>::empty());
        assert(out@.additional =~= Seq::<RecordSpec>::empty());
        out
    }
}

} // verus!
