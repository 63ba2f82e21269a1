//! The way of a query through the resolver: who asks, which rule holds,
//! what can be answered without asking the upstream servers, and what comes
//! of their answers.

use crate::cache::{
    clamp_ttl, place_of, reply_ttl, served, verdict, Cache, CacheKey, EntrySpec, ServePolicy,
    TtlPolicy, Verdict,
};
use crate::config::item::ClientRule;
use crate::config::rule::DomainRule;
use crate::config::server::ListenerConfig;
use crate::config::value::{AddressRuleValue, CNameRule, ResponseMode};
use crate::hosts::{hosts_addresses, lookup_hosts, HostsEntry};
use crate::name::Name;
use crate::ip::{IpAddr, IpOrSet, IpOrSetSpec};
use crate::message::{
    address_message, addresses_message, records_view, servfail_message, soa_message, Message, MessageSpec, Rcode,
    Record, RecordSpec,
};
use crate::resolve::{
    address_answer, answers_view, any_reachable, holds_reachable, lemma_reachable_addresses,
    lemma_reachable_of_same, can_follow, cleaned, copy_records, default_group,
    find_soa_minimum, may_follow,
    holds_listed, in_any, by_speed, is_first_ping_choice, keep_reachable, match_client,
    order_by_speed, overlaps, reachable_records, select_first_ping, select_group, sets_view,
    soa_minimum, static_answer, without_listed, AddressAnswer, Probe,
};
use crate::rule_table::{is_choice, none_matches, RuleTable};
use vstd::prelude::*;

verus! {

/// What is known about a query while it is on its way.
#[derive(Debug)]
pub struct RequestContext {
    /// What is asked for.
    pub question: CacheKey,
    /// Who asks.
    pub client_ip: IpAddr,
    /// The place, in the rule table, of the rule that holds for the name.
    pub matched_rule: Option<usize>,
    /// The group of upstream servers that is asked.
    pub chosen_group: Vec<u8>,
    /// Whether the cache is left out.
    pub no_cache: bool,
    /// Whether the query refreshes the cache while the client already has
    /// its answer.
    pub background: bool,
}

/// The place of the first rule for clients whose block holds `ip`.
pub open spec fn client_rule_of(rules: Seq<ClientRule>, ip: IpAddr) -> Option<int> {
    if exists|i: int| 0 <= i < rules.len() && in_any(ip, seq![(#[trigger] rules[i]).client@]) {
        Some(
            choose|i: int|
                0 <= i < rules.len() && in_any(ip, seq![(#[trigger] rules[i]).client@]) && forall|
                    j: int,
                | 0 <= j < i ==> !in_any(ip, seq![(#[trigger] rules[j]).client@]),
        )
    } else {
        None
    }
}

/// The group that the asker belongs to: that of the first rule for clients
/// that holds its address and names a group, else that of the listener.
pub open spec fn client_group(
    rules: Seq<ClientRule>,
    at: Option<usize>,
    listener: ListenerConfig,
) -> Option<Seq<u8>> {
    match at {
        Some(i) => match rules[i as int].group {
            Some(g) => Some(g@),
            None => match listener.group {
                Some(g) => Some(g@),
                None => None,
            },
        },
        None => match listener.group {
            Some(g) => Some(g@),
            None => None,
        },
    }
}

impl RequestContext {
    /// The context of a query as it enters the resolver. The rule of the
    /// name is looked up unless the listener takes no rules. The group of
    /// upstream servers is the one that the rule names, else the one of the
    /// asker, else the default group. The cache is left out if the
    /// listener, the rule for the client or the rule of the name says so.
    pub fn new(
        question: CacheKey,
        client_ip: IpAddr,
        listener: &ListenerConfig,
        client_rules: &Vec<ClientRule>,
        rules: &RuleTable<DomainRule>,
    ) -> (ctx: RequestContext)
        ensures
            ctx.question@ == question@,
            ctx.client_ip == client_ip,
            !ctx.background,
            match ctx.matched_rule {
                Some(i) => !listener.no_rule && is_choice(rules.patterns(), question@.name, i as int),
                None => listener.no_rule || none_matches(rules.patterns(), question@.name),
            },
            ({
                let client = match_client_spec(client_rules@, client_ip);
                let rule = match ctx.matched_rule {
                    Some(i) => Some(rules.values()[i as int]),
                    None => None,
                };
                &&& ctx.chosen_group@ == match rule {
                    Some(DomainRule { nameserver: Some(g), .. }) => g@,
                    _ => match client_group(client_rules@, client, *listener) {
                        Some(g) => g,
                        None => default_group(),
                    },
                }
                &&& ctx.no_cache == (listener.no_cache || (client matches Some(c)
                    && client_rules@[c as int].no_cache) || (rule matches Some(r) && r.no_cache))
            }),
    {
        let matched_rule = if listener.no_rule {
            None
        } else {
            rules.find(&question.name)
        };
        let client = match_client(client_rules, client_ip);
        proof {
            lemma_match_client(client_rules@, client_ip, client);
        }
        let asker_group: Option<&Vec<u8>> = match client {
            Some(c) => match &client_rules[c].group {
                Some(g) => Some(g),
                None => listener.group.as_ref(),
            },
            None => listener.group.as_ref(),
        };
        let (rule_group, rule_no_cache): (Option<&Vec<u8>>, bool) = match matched_rule {
            Some(i) => {
                let (_, rule) = rules.get(i);
                (rule.nameserver.as_ref(), rule.no_cache)
            },
            None => (None, false),
        };
        let chosen_group = select_group(rule_group, asker_group);
        let client_no_cache = match client {
            Some(c) => client_rules[c].no_cache,
            None => false,
        };
        RequestContext {
            question,
            client_ip,
            matched_rule,
            chosen_group,
            no_cache: listener.no_cache || client_no_cache || rule_no_cache,
            background: false,
        }
    }
}

/// The place of the first rule for clients whose block holds `ip`, as a
/// place in the list; `None` where no block holds it.
pub open spec fn match_client_spec(rules: Seq<ClientRule>, ip: IpAddr) -> Option<usize> {
    match client_rule_of(rules, ip) {
        Some(i) => Some(i as usize),
        None => None,
    }
}

/// The first rule whose block holds the address is the one rule that is
/// chosen for the client.
pub proof fn lemma_match_client(rules: Seq<ClientRule>, ip: IpAddr, found: Option<usize>)
    requires
        match found {
            Some(i) => {
                &&& i < rules.len()
                &&& in_any(ip, seq![rules[i as int].client@])
                &&& forall|j: int| 0 <= j < i ==> !in_any(ip, seq![(#[trigger] rules[j]).client@])
            },
            None => forall|j: int| 0 <= j < rules.len() ==> !in_any(ip, seq![(#[trigger] rules[j]).client@]),
        },
    ensures
        found == match_client_spec(rules, ip),
{
    match found {
        Some(i) => {
            let c = choose|c: int|
                0 <= c < rules.len() && in_any(ip, seq![(#[trigger] rules[c]).client@]) && forall|
                    j: int,
                | 0 <= j < c ==> !in_any(ip, seq![(#[trigger] rules[j]).client@]);
            assert(in_any(ip, seq![rules[i as int].client@]));
            if c < i {
                assert(!in_any(ip, seq![rules[c].client@]));
            } else if i < c {
                assert(!in_any(ip, seq![rules[i as int].client@]));
            }
        },
        None => {},
    }
}

/// What happens to a query before the upstream servers are asked.
#[derive(Debug)]
pub enum Step {
    /// It is answered with a reply that is made here.
    Reply(Message),
    /// It is answered from the cache: with the entry that now stands at the
    /// place `at`, sent with the time to live `ttl`; `refresh` asks for a
    /// refresh in the background.
    Serve { at: usize, ttl: u64, refresh: bool },
    /// The query goes on under the name `target`, which a rule puts in
    /// place of the name asked for.
    Follow { target: Name },
    /// The upstream servers are asked.
    AskUpstream,
}

/// What the forced answer of the rule at place `at` means for the question,
/// where rules are values of the table `rules`.
pub open spec fn forced(rules: Seq<DomainRule>, at: Option<usize>, qtype: u16) -> AddressAnswer {
    match at {
        Some(i) => if i < rules.len() {
            match rules[i as int].address {
                Some(a) => address_answer(a, qtype),
                None => AddressAnswer::Pass,
            }
        } else {
            AddressAnswer::Pass
        },
        None => AddressAnswer::Pass,
    }
}

/// The name that the rule at place `at` puts in place of the name asked
/// for.
pub open spec fn alias(rules: Seq<DomainRule>, at: Option<usize>) -> Option<Seq<Seq<u8>>> {
    match at {
        Some(i) => if i < rules.len() {
            match rules[i as int].cname {
                Some(CNameRule::Value(n)) => Some(n@),
                _ => None,
            }
        } else {
            None
        },
        None => None,
    }
}

/// Whether the rule at place `at` forbids answers past their time to live.
pub open spec fn forbids_stale(rules: Seq<DomainRule>, at: Option<usize>) -> bool {
    at matches Some(i) && i < rules.len() && rules[i as int].no_serve_expired
}

/// The limits on times to live that hold for a query: each limit that the
/// rule at place `at` sets takes the place of the resolver-wide one.
pub open spec fn limits(rules: Seq<DomainRule>, at: Option<usize>, wide: TtlPolicy) -> TtlPolicy {
    match at {
        Some(i) => if i < rules.len() {
            let r = rules[i as int];
            TtlPolicy {
                rr_ttl_min: if r.rr_ttl_min.is_some() {
                    r.rr_ttl_min
                } else {
                    wide.rr_ttl_min
                },
                rr_ttl_max: if r.rr_ttl_max.is_some() {
                    r.rr_ttl_max
                } else {
                    wide.rr_ttl_max
                },
                rr_ttl_reply_max: if r.rr_ttl_reply_max.is_some() {
                    r.rr_ttl_reply_max
                } else {
                    wide.rr_ttl_reply_max
                },
            }
        } else {
            wide
        },
        None => wide,
    }
}

/// The limits on times to live that hold for a query, given the
/// resolver-wide ones.
pub fn limits_of(ctx: &RequestContext, rules: &RuleTable<DomainRule>, wide: &TtlPolicy) -> (out:
    TtlPolicy)
    ensures
        out == limits(rules.values(), ctx.matched_rule, *wide),
{
    match ctx.matched_rule {
        Some(i) => if i < rules.len() {
            let (_, rule) = rules.get(i);
            wide.under_rule(rule.rr_ttl_min, rule.rr_ttl_max, rule.rr_ttl_reply_max)
        } else {
            *wide
        },
        None => *wide,
    }
}

/// What a query gets without the upstream servers, see `before_upstream`:
/// whether the step is the right one, given the cache before and after it.
pub open spec fn is_step_before<T>(
    step: Step,
    ctx: RequestContext,
    rules: Seq<DomainRule>,
    hosts: Seq<HostsEntry>,
    visited: Seq<Name>,
    before: Seq<EntrySpec<T>>,
    after: Seq<EntrySpec<T>>,
    now: u64,
    policy: ServePolicy,
    reply_max: Option<u64>,
    local_ttl: u32,
) -> bool {
    let given = hosts_addresses(hosts, ctx.question@.name, ctx.question.qtype);
    if given.len() > 0 {
        &&& step matches Step::Reply(m) && m@ == addresses_message(
            ctx.question@.name,
            given,
            local_ttl,
        ).sent(reply_max)
        &&& after == before
    } else {
        is_step_past_hosts(step, ctx, rules, visited, before, after, now, policy, reply_max, local_ttl)
    }
}

/// What a query gets without the upstream servers where the hosts files
/// do not answer it; see `before_upstream`.
pub open spec fn is_step_past_hosts<T>(
    step: Step,
    ctx: RequestContext,
    rules: Seq<DomainRule>,
    visited: Seq<Name>,
    before: Seq<EntrySpec<T>>,
    after: Seq<EntrySpec<T>>,
    now: u64,
    policy: ServePolicy,
    reply_max: Option<u64>,
    local_ttl: u32,
) -> bool {
    match forced(rules, ctx.matched_rule, ctx.question.qtype) {
        AddressAnswer::Soa => {
            &&& step matches Step::Reply(m) && m@ == soa_message(ctx.question@.name, local_ttl).sent(
                reply_max,
            )
            &&& after == before
        },
        AddressAnswer::Address(ip) => {
            &&& step matches Step::Reply(m) && m@ == address_message(
                ctx.question@.name,
                ip,
                local_ttl,
            ).sent(reply_max)
            &&& after == before
        },
        AddressAnswer::Pass => match alias(rules, ctx.matched_rule) {
            Some(target) => {
                &&& if can_follow(visited, target) {
                    step matches Step::Follow { target: t } && t@ == target
                } else {
                    step matches Step::Reply(m) && m@ == servfail_message()
                }
                &&& after == before
            },
            None => is_step_of_cache(step, ctx, rules, before, after, now, policy, reply_max),
        },
    }
}

/// What a query gets from the cache; see `before_upstream`.
pub open spec fn is_step_of_cache<T>(
    step: Step,
    ctx: RequestContext,
    rules: Seq<DomainRule>,
    before: Seq<EntrySpec<T>>,
    after: Seq<EntrySpec<T>>,
    now: u64,
    policy: ServePolicy,
    reply_max: Option<u64>,
) -> bool {
    let found = if ctx.no_cache || ctx.background {
        None
    } else {
        place_of(before, ctx.question@)
    };
    match found {
        Some(i) => {
            let e = before[i];
            match verdict(e.stored_at, e.original_ttl, now, policy) {
                Verdict::Fresh { ttl, refresh } => {
                    &&& step matches Step::Serve { at, ttl: t, refresh: r } && t
                        == reply_ttl(ttl, reply_max) && r == refresh && at == after.len()
                        - 1
                    &&& after == served(before, i)
                },
                Verdict::Stale { ttl } => if forbids_stale(rules, ctx.matched_rule) {
                    &&& step is AskUpstream
                    &&& after == before
                } else {
                    &&& step matches Step::Serve { at, ttl: t, refresh: r } && t
                        == reply_ttl(ttl, reply_max) && r && at == after.len() - 1
                    &&& after == served(before, i)
                },
                Verdict::Expired => {
                    &&& step is AskUpstream
                    &&& after == before
                },
            }
        },
        None => {
            &&& step is AskUpstream
            &&& after == before
        },
    }
}

/// Takes a query as far as it gets without the upstream servers. The
/// addresses that the hosts files give for it come first, then a forced
/// answer of the matched rule, then the name that the rule puts in place
/// of the one asked for: the query goes on under that name, or fails where
/// `visited`, the names that it has been at, forbid that. None of these
/// touches the cache. Then the cache is asked, unless the query leaves it
/// out or is itself a refresh: a fresh entry is served; an entry past its
/// time to live is served, and asks for a refresh, unless the matched rule
/// forbids that. An entry that is served is marked as served. Otherwise
/// the upstream servers are asked and the cache stays as it is. Whatever
/// is sent, a reply made here or an entry of the cache, is sent with times
/// to live that are cut down to the greatest one for replies: that of the
/// matched rule, or else the resolver-wide one in `wide`.
pub fn before_upstream<T>(
    ctx: &RequestContext,
    rules: &RuleTable<DomainRule>,
    hosts: &Vec<HostsEntry>,
    visited: &Vec<Name>,
    cache: &mut Cache<T>,
    now: u64,
    policy: &ServePolicy,
    wide: &TtlPolicy,
    local_ttl: u32,
) -> (step: Step)
    ensures
        final(cache).capacity() == old(cache).capacity(),
        is_step_before(
            step,
            *ctx,
            rules.values(),
            hosts@,
            visited@,
            old(cache).entries(),
            final(cache).entries(),
            now,
            *policy,
            limits(rules.values(), ctx.matched_rule, *wide).rr_ttl_reply_max,
            local_ttl,
        ),
        limits(rules.values(), ctx.matched_rule, *wide).rr_ttl_reply_max matches Some(hi)
            ==> match step {
            Step::Reply(m) => forall|i: int|
                0 <= i < m@.all().len() ==> (#[trigger] m@.all()[i]).ttl <= hi,
            Step::Serve { ttl, .. } => ttl <= hi,
            _ => true,
        },
{
    let held = rules.len();
    let limit = limits_of(ctx, rules, wide);
    let given = lookup_hosts(hosts, &ctx.question.name, ctx.question.qtype);
    if given.len() > 0 {
        let reply = Message::addresses_for(&ctx.question.name, &given, local_ttl);
        return Step::Reply(reply.for_reply(limit.rr_ttl_reply_max));
    }
    let found: (Option<AddressRuleValue>, bool, Option<Name>) = match ctx.matched_rule {
        Some(i) => if i < held {
            let (_, rule) = rules.get(i);
            let target = match &rule.cname {
                Some(CNameRule::Value(n)) => Some(n.clone()),
                _ => None,
            };
            (rule.address, rule.no_serve_expired, target)
        } else {
            (None, false, None)
        },
        None => (None, false, None),
    };
    let (address, no_stale, target) = found;
    if let Some(a) = address {
        if let Some(reply) = static_answer(&ctx.question.name, ctx.question.qtype, a, local_ttl) {
            return Step::Reply(reply.for_reply(limit.rr_ttl_reply_max));
        }
    }
    if let Some(target) = target {
        return if may_follow(visited, &target) {
            Step::Follow { target }
        } else {
            Step::Reply(Message::servfail())
        };
    }
    if ctx.no_cache || ctx.background {
        return Step::AskUpstream;
    }
    let at = match cache.find(&ctx.question) {
        Some(at) => at,
        None => {
            return Step::AskUpstream;
        },
    };
    let e = cache.entry(at);
    match crate::cache::judge(e.stored_at, e.original_ttl, now, policy) {
        Verdict::Fresh { ttl, refresh } => {
            let at = cache.touch(at);
            Step::Serve { at, ttl: limit.for_reply(ttl), refresh }
        },
        Verdict::Stale { ttl } => {
            if no_stale {
                Step::AskUpstream
            } else {
                let at = cache.touch(at);
                Step::Serve { at, ttl: limit.for_reply(ttl), refresh: true }
            }
        },
        Verdict::Expired => Step::AskUpstream,
    }
}

/// The addresses that the records hold, in the order of the records.
pub open spec fn addresses(rs: Seq<RecordSpec>) -> Seq<IpAddr>
    decreases rs.len(),
{
    if rs.len() == 0 {
        Seq::empty()
    } else {
        match rs.last().data.address() {
            Some(ip) => addresses(rs.drop_last()).push(ip),
            None => addresses(rs.drop_last()),
        }
    }
}

/// The addresses that the records hold, in the order of the records.
pub fn addresses_of(records: &Vec<Record>) -> (out: Vec<IpAddr>)
    ensures
        out@ == addresses(records_view(records@)),
{
    let mut out: Vec<IpAddr> = Vec::new();
    let mut i: usize = 0;
    let ghost rs = records_view(records@);
    assert(rs.take(0) =~= Seq::<RecordSpec>::empty());
    while i < records.len()
        invariant
            i <= records.len(),
            rs == records_view(records@),
            out@ == addresses(rs.take(i as int)),
        decreases records.len() - i,
    {
        proof {
            assert(rs.take(i + 1).drop_last() =~= rs.take(i as int));
            assert(rs.take(i + 1).last() == records@[i as int]@);
        }
        if let Some(ip) = records[i].address() {
            out.push(ip);
        }
        i += 1;
    }
    assert(rs.take(i as int) =~= rs);
    out
}

/// The least time to live of the records that follow `least` so far.
fn least_of(records: &Vec<Record>, least: Option<u32>) -> (out: Option<u32>)
    ensures
        out == least_ttl_from(least, records_view(records@)),
{
    let mut out = least;
    let mut i: usize = 0;
    let ghost rs = records_view(records@);
    assert(rs.take(0) =~= Seq::<RecordSpec>::empty());
    while i < records.len()
        invariant
            i <= records.len(),
            rs == records_view(records@),
            out == least_ttl_from(least, rs.take(i as int)),
        decreases records.len() - i,
    {
        proof {
            assert(rs.take(i + 1).drop_last() =~= rs.take(i as int));
            assert(rs.take(i + 1).last() == records@[i as int]@);
        }
        let t = records[i].ttl;
        out = match out {
            Some(m) => if t < m {
                Some(t)
            } else {
                Some(m)
            },
            None => Some(t),
        };
        i += 1;
    }
    assert(rs.take(i as int) =~= rs);
    out
}

/// The least of `least` and the times to live of the records.
pub open spec fn least_ttl_from(least: Option<u32>, rs: Seq<RecordSpec>) -> Option<u32>
    decreases rs.len(),
{
    if rs.len() == 0 {
        least
    } else {
        match least_ttl_from(least, rs.drop_last()) {
            Some(t) => if rs.last().ttl < t {
                Some(rs.last().ttl)
            } else {
                Some(t)
            },
            None => Some(rs.last().ttl),
        }
    }
}

/// The least time to live among the answer and the authority records of a
/// reply.
pub open spec fn reply_least_ttl(m: MessageSpec) -> Option<u32> {
    least_ttl_from(least_ttl_from(None, m.answer), m.authority)
}

/// Whether an answer of an upstream server counts: it is no error, and
/// where a whitelist is set it holds an address of the whitelist.
pub open spec fn is_usable(m: MessageSpec, white: Seq<IpOrSetSpec>) -> bool {
    m.rcode == Rcode::NoError && (white.len() == 0 || overlaps(m.answer, white))
}

/// Whether an answer of an upstream server counts.
pub fn usable_answer(m: &Message, white: &Vec<IpOrSet>) -> (r: bool)
    ensures
        r == is_usable(m@, sets_view(white@)),
{
    matches!(m.rcode, Rcode::NoError) && (white.len() == 0 || holds_listed(&m.answer, white))
}

/// The places of the answers that count, in their order.
pub open spec fn good_places(answers: Seq<Message>, white: Seq<IpOrSetSpec>) -> Seq<usize>
    decreases answers.len(),
{
    if answers.len() == 0 {
        Seq::empty()
    } else if is_usable(answers.last()@, white) {
        good_places(answers.drop_last(), white).push((answers.len() - 1) as usize)
    } else {
        good_places(answers.drop_last(), white)
    }
}

/// The addresses that the answers at the given places hold once the
/// addresses of the blocks in `listed` are taken out of them, answer by
/// answer.
pub open spec fn clean_lists(
    name: Seq<Seq<u8>>,
    answers: Seq<Message>,
    places: Seq<usize>,
    listed: Seq<IpOrSetSpec>,
    soa_ttl: u32,
) -> Seq<Seq<IpAddr>> {
    Seq::new(
        places.len(),
        |k: int| addresses(cleaned(name, answers[places[k] as int]@, listed, soa_ttl).answer),
    )
}

/// Whether an address that some answer at the given places holds, and
/// that is of none of the blocks in `listed`, answered a probe.
pub open spec fn saw_reachable(
    name: Seq<Seq<u8>>,
    answers: Seq<Message>,
    places: Seq<usize>,
    listed: Seq<IpOrSetSpec>,
    soa_ttl: u32,
    probes: Seq<Probe>,
) -> bool {
    exists|k: int|
        0 <= k < places.len() && any_reachable(
            #[trigger] clean_lists(name, answers, places, listed, soa_ttl)[k],
            probes,
        )
}

/// The place of the first answer that says "no such name".
pub fn first_denial(answers: &Vec<Message>) -> (r: Option<usize>)
    ensures
        match r {
            Some(i) => i < answers@.len() && answers@[i as int].rcode == Rcode::NxDomain
                && forall|j: int| 0 <= j < i ==> answers@[j].rcode != Rcode::NxDomain,
            None => forall|j: int| 0 <= j < answers@.len() ==> answers@[j].rcode != Rcode::NxDomain,
        },
{
    let mut i: usize = 0;
    while i < answers.len()
        invariant
            i <= answers.len(),
            forall|j: int| 0 <= j < i ==> answers@[j].rcode != Rcode::NxDomain,
        decreases answers.len() - i,
    {
        if matches!(answers[i].rcode, Rcode::NxDomain) {
            return Some(i);
        }
        i += 1;
    }
    None
}

/// Whether `out` is the answer `clean` made ready for the client. Where
/// answers are picked by probing, the addresses that did not answer a probe
/// are held back, unless none answered. Where the fastest address is asked
/// for, the records stand from fastest to slowest besides, those of equal
/// speed in the order in which they came. Nothing else is changed.
pub open spec fn is_finished(
    out: MessageSpec,
    clean: MessageSpec,
    probes: Seq<Probe>,
    mode: ResponseMode,
) -> bool {
    &&& out.rcode == clean.rcode
    &&& out.authority == clean.authority
    &&& out.additional == clean.additional
    &&& match mode {
        ResponseMode::FastestResponse => out.answer == clean.answer,
        ResponseMode::FirstPing => out.answer == reachable_records(clean.answer, probes),
        ResponseMode::FastestIp => out.answer == by_speed(
            reachable_records(clean.answer, probes),
            probes,
        ),
    }
}

/// Makes an answer ready for the client; see `is_finished`. What held an
/// address that answered a probe still holds one.
pub fn finish(clean: Message, probes: &Vec<Probe>, mode: ResponseMode) -> (out: Message)
    ensures
        is_finished(out@, clean@, probes@, mode),
        holds_reachable(clean@.answer, probes@) ==> holds_reachable(out@.answer, probes@),
{
    match mode {
        ResponseMode::FastestResponse => clean,
        ResponseMode::FirstPing => {
            let answer = keep_reachable(&clean.answer, probes);
            Message {
                rcode: clean.rcode,
                answer,
                authority: clean.authority,
                additional: clean.additional,
            }
        },
        ResponseMode::FastestIp => {
            let kept = keep_reachable(&clean.answer, probes);
            let ghost before = records_view(kept@);
            let answer = order_by_speed(kept, probes);
            proof {
                if holds_reachable(before, probes@) {
                    lemma_reachable_of_same(before, records_view(answer@), probes@);
                }
            }
            Message {
                rcode: clean.rcode,
                answer,
                authority: clean.authority,
                additional: clean.additional,
            }
        },
    }
}

/// The time to live with which an answer is stored. An answer without
/// records that answer the question, be it "no such name" or "no such
/// data", is stored for the least time to live that its start-of-authority
/// record names; any other answer for the least time to live of its
/// records. Either is held within the limits for stored records. An answer
/// that gives no such time is not stored.
pub open spec fn store_ttl_of(m: MessageSpec, ttl: TtlPolicy) -> Option<u64> {
    let found = if m.answer.len() == 0 {
        soa_minimum(m.authority)
    } else {
        reply_least_ttl(m)
    };
    match found {
        Some(t) => Some(clamp_ttl(t as u64, ttl.rr_ttl_min, ttl.rr_ttl_max)),
        None => None,
    }
}

/// The time to live with which an answer is stored; see `store_ttl_of`.
pub fn store_ttl_for(m: &Message, ttl: &TtlPolicy) -> (out: Option<u64>)
    ensures
        out == store_ttl_of(m@, *ttl),
{
    let found = if m.answer.len() == 0 {
        find_soa_minimum(&m.authority)
    } else {
        least_of(&m.authority, least_of(&m.answer, None))
    };
    match found {
        Some(t) => Some(ttl.for_insert(t as u64)),
        None => None,
    }
}

/// A copy of a reply.
pub fn copy_message(m: &Message) -> (out: Message)
    ensures
        out@ == m@,
{
    Message {
        rcode: m.rcode,
        answer: copy_records(&m.answer),
        authority: copy_records(&m.authority),
        additional: copy_records(&m.additional),
    }
}

/// What comes of the answers of the upstream servers.
#[derive(Debug)]
pub struct Settled {
    /// The place of the answer that was picked.
    pub chosen: Option<usize>,
    /// The answer that the query is settled on, as it is kept.
    pub answer: Message,
    /// The reply to the client: the answer with its times to live cut down
    /// for replies.
    pub reply: Message,
    /// The time to live with which the answer goes into the cache; `None`
    /// where it does not go there.
    pub store_ttl: Option<u64>,
}

/// Whether `out` is what comes of the answers of the upstream servers; see
/// `after_upstream`.
pub open spec fn is_settled(
    out: Settled,
    ctx: RequestContext,
    answers: Seq<Message>,
    probes: Seq<Probe>,
    mode: ResponseMode,
    listed: Seq<IpOrSetSpec>,
    white: Seq<IpOrSetSpec>,
    ttl: TtlPolicy,
    soa_ttl: u32,
) -> bool {
    let good = good_places(answers, white);
    &&& out.reply@ == out.answer@.sent(ttl.rr_ttl_reply_max)
    &&& match out.chosen {
        None => {
            &&& good.len() == 0
            &&& forall|j: int| 0 <= j < answers.len() ==> answers[j].rcode != Rcode::NxDomain
            &&& out.answer@ == servfail_message()
            &&& out.store_ttl.is_none()
        },
        Some(i) => {
            &&& i < answers.len()
            &&& out.store_ttl == if ctx.no_cache {
                None
            } else {
                store_ttl_of(out.answer@, ttl)
            }
            &&& if good.len() > 0 {
                &&& exists|k: int|
                    0 <= k < good.len() && #[trigger] good[k] == i && if mode
                        == ResponseMode::FastestResponse {
                        k == 0
                    } else {
                        is_first_ping_choice(
                            clean_lists(ctx.question@.name, answers, good, listed, soa_ttl),
                            probes,
                            k,
                        )
                    }
                &&& is_finished(
                    out.answer@,
                    cleaned(ctx.question@.name, answers[i as int]@, listed, soa_ttl),
                    probes,
                    mode,
                )
                &&& mode != ResponseMode::FastestResponse && saw_reachable(
                    ctx.question@.name,
                    answers,
                    good,
                    listed,
                    soa_ttl,
                    probes,
                ) ==> holds_reachable(out.answer@.answer, probes)
            } else {
                &&& answers[i as int].rcode == Rcode::NxDomain
                &&& forall|j: int| 0 <= j < i ==> answers[j].rcode != Rcode::NxDomain
                &&& out.answer@ == answers[i as int]@
            }
        },
    }
}

/// Settles a query on the answers of the upstream servers, which stand in
/// the order in which they arrived. An answer counts if it is no error
/// and, where a whitelist is set, holds an address of it. The addresses of
/// the blocks in `listed` are taken out of every answer that counts, and
/// "no such data" is put in the place of one that this empties. The answer
/// is the first one that counts if the first answer is asked for, and
/// otherwise the one picked by probing among the addresses that are left;
/// then it is made ready as `is_finished` says. Where answers are picked by
/// probing and an address that is left in any of them answered a probe, the
/// answer holds an address that answered. Where no answer counts,
/// the first answer that says "no such name" is passed on as it is; where
/// there is none either, the client is told that the servers failed. What
/// is sent has its times to live cut down for replies. The answer goes into
/// the cache, unless the query leaves the cache out or the servers failed,
/// with the time to live that `store_ttl_of` gives.
pub fn after_upstream(
    ctx: &RequestContext,
    answers: &Vec<Message>,
    probes: &Vec<Probe>,
    mode: ResponseMode,
    listed: &Vec<IpOrSet>,
    white: &Vec<IpOrSet>,
    ttl: &TtlPolicy,
    soa_ttl: u32,
) -> (out: Settled)
    ensures
        is_settled(
            out,
            *ctx,
            answers@,
            probes@,
            mode,
            sets_view(listed@),
            sets_view(white@),
            *ttl,
            soa_ttl,
        ),
        ttl.rr_ttl_reply_max matches Some(hi) ==> forall|i: int|
            0 <= i < out.reply@.all().len() ==> (#[trigger] out.reply@.all()[i]).ttl <= hi,
{
    let mut good: Vec<usize> = Vec::new();
    let mut cleans: Vec<Message> = Vec::new();
    let mut lists: Vec<Vec<IpAddr>> = Vec::new();
    let mut i: usize = 0;
    let ghost w = sets_view(white@);
    let ghost name = ctx.question@.name;
    let ghost bad = sets_view(listed@);
    assert(answers@.take(0) =~= Seq::<Message>::empty());
    while i < answers.len()
        invariant
            i <= answers.len(),
            w == sets_view(white@),
            name == ctx.question@.name,
            bad == sets_view(listed@),
            good@ == good_places(answers@.take(i as int), w),
            lists@.len() == good@.len(),
            cleans@.len() == good@.len(),
            forall|k: int| 0 <= k < good@.len() ==> (#[trigger] good@[k]) < i,
            forall|k: int|
                0 <= k < good@.len() ==> (#[trigger] cleans@[k])@ == cleaned(
                    name,
                    answers@[good@[k] as int]@,
                    bad,
                    soa_ttl,
                ),
            forall|k: int|
                0 <= k < good@.len() ==> (#[trigger] lists@[k])@ == addresses(cleans@[k]@.answer),
        decreases answers.len() - i,
    {
        proof {
            assert(answers@.take(i + 1).drop_last() =~= answers@.take(i as int));
            assert(answers@.take(i + 1).last() == answers@[i as int]);
        }
        if usable_answer(&answers[i], white) {
            let clean = without_listed(&ctx.question.name, &answers[i], listed, soa_ttl);
            good.push(i);
            lists.push(addresses_of(&clean.answer));
            cleans.push(clean);
        }
        i += 1;
    }
    assert(answers@.take(i as int) =~= answers@);
    let ghost seen = clean_lists(name, answers@, good@, bad, soa_ttl);
    assert(answers_view(lists@) =~= seen);
    let pick = if good.len() == 0 {
        None
    } else {
        match mode {
            ResponseMode::FastestResponse => Some(0),
            _ => select_first_ping(&lists, probes),
        }
    };
    let (chosen, answer) = match pick {
        Some(k) => {
            let at = good[k];
            let clean = cleans.remove(k);
            proof {
                lemma_reachable_addresses(clean@.answer, probes@);
                if saw_reachable(name, answers@, good@, bad, soa_ttl, probes@) {
                    let j = choose|j: int|
                        0 <= j < good@.len() && any_reachable(#[trigger] seen[j], probes@);
                    assert(any_reachable(answers_view(lists@)[j], probes@));
                }
            }
            (Some(at), finish(clean, probes, mode))
        },
        None => match first_denial(answers) {
            Some(at) => (Some(at), copy_message(&answers[at])),
            None => (None, Message::servfail()),
        },
    };
    let store_ttl = if ctx.no_cache || chosen.is_none() {
        None
    } else {
        store_ttl_for(&answer, ttl)
    };
    let reply = answer.for_reply(ttl.rr_ttl_reply_max);
    Settled { chosen, answer, reply, store_ttl }
}

} // verus!
