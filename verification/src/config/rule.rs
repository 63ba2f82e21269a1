//! Rules for domains: the policies that a configuration attaches to a
//! domain pattern, read from and written as a list of options.

use crate::config::setting::{
    settings_canonical, settings_view, Setting, SettingSpec,
};
use crate::config::value::{
    nftset_view, nftsets_view, AddressRuleValue, CNameRule, CNameSpec, ConfigForIP, NFTsetConfig,
    NftsetSpec, ResponseMode, SpeedCheckMode,
};
use crate::ip::IpNet;
use vstd::prelude::*;

verus! {

/// The policies attached to a domain pattern. A policy that is not set is
/// left to a less specific rule or to the resolver-wide setting.
#[derive(Debug, PartialEq, Eq, Hash)]
pub struct DomainRule {
    /// The answer forced for the domain.
    pub address: Option<AddressRuleValue>,
    /// The group of upstream servers that resolves the domain.
    pub nameserver: Option<Vec<u8>>,
    /// How the time to reach an address is measured.
    pub speed_check_mode: Option<Vec<SpeedCheckMode>>,
    /// How the answer is picked among those of the upstream servers.
    pub response_mode: Option<ResponseMode>,
    /// Whether the faster of the two address families is preferred.
    pub dualstack_ip_selection: Option<bool>,
    /// Answers are not kept in the cache.
    pub no_cache: bool,
    /// Answers past their time to live are not served.
    pub no_serve_expired: bool,
    /// A query for an IPv6 address gets "no such data".
    pub force_aaaa_soa: bool,
    /// A query for an HTTPS record gets "no such data".
    pub force_https_soa: bool,
    /// Time to live given to each record.
    pub rr_ttl: Option<u64>,
    /// Least time to live of a record.
    pub rr_ttl_min: Option<u64>,
    /// Greatest time to live of a record.
    pub rr_ttl_max: Option<u64>,
    /// Greatest time to live of a record in a reply.
    pub rr_ttl_reply_max: Option<u64>,
    /// The name put in place of the domain.
    pub cname: Option<CNameRule>,
    /// The packet-filter sets that resolved addresses are put into.
    pub nftset: Option<Vec<ConfigForIP<NFTsetConfig>>>,
    /// The client subnet sent to upstream servers.
    pub subnet: Option<IpNet>,
}

/// The mathematical content of a `DomainRule`.
pub struct DomainRuleSpec {
    pub address: Option<AddressRuleValue>,
    pub nameserver: Option<Seq<u8>>,
    pub speed_check_mode: Option<Seq<SpeedCheckMode>>,
    pub response_mode: Option<ResponseMode>,
    pub dualstack_ip_selection: Option<bool>,
    pub no_cache: bool,
    pub no_serve_expired: bool,
    pub force_aaaa_soa: bool,
    pub force_https_soa: bool,
    pub rr_ttl: Option<u64>,
    pub rr_ttl_min: Option<u64>,
    pub rr_ttl_max: Option<u64>,
    pub rr_ttl_reply_max: Option<u64>,
    pub cname: Option<CNameSpec>,
    pub nftset: Option<Seq<ConfigForIP<NftsetSpec>>>,
    pub subnet: Option<IpNet>,
}

/// Number of policies of a rule.
pub const FIELDS: usize = 16;

/// The view of a list of bytes that may be absent.
pub open spec fn opt_bytes_view(v: Option<Vec<u8>>) -> Option<Seq<u8>> {
    match v {
        Some(b) => Some(b@),
        None => None,
    }
}

impl View for DomainRule {
    type V = DomainRuleSpec;

    open spec fn view(&self) -> DomainRuleSpec {
        DomainRuleSpec {
            address: self.address,
            nameserver: opt_bytes_view(self.nameserver),
            speed_check_mode: match self.speed_check_mode {
                Some(v) => Some(v@),
                None => None,
            },
            response_mode: self.response_mode,
            dualstack_ip_selection: self.dualstack_ip_selection,
            no_cache: self.no_cache,
            no_serve_expired: self.no_serve_expired,
            force_aaaa_soa: self.force_aaaa_soa,
            force_https_soa: self.force_https_soa,
            rr_ttl: self.rr_ttl,
            rr_ttl_min: self.rr_ttl_min,
            rr_ttl_max: self.rr_ttl_max,
            rr_ttl_reply_max: self.rr_ttl_reply_max,
            cname: match self.cname {
                Some(v) => Some(v@),
                None => None,
            },
            nftset: match self.nftset {
                Some(v) => Some(nftsets_view(v@)),
                None => None,
            },
            subnet: self.subnet,
        }
    }
}

/// The one setting of a value that is set, and nothing for one that is not.
pub open spec fn one<T>(value: Option<T>, make: spec_fn(T) -> SettingSpec) -> Seq<SettingSpec> {
    match value {
        Some(v) => seq![make(v)],
        None => Seq::empty(),
    }
}

/// The one setting of a switch that is on, and nothing for one that is off.
pub open spec fn flag(on: bool, setting: SettingSpec) -> Seq<SettingSpec> {
    if on {
        seq![setting]
    } else {
        Seq::empty()
    }
}

impl DomainRuleSpec {
    /// The rule that sets no policy.
    pub open spec fn empty() -> DomainRuleSpec {
        DomainRuleSpec {
            address: None,
            nameserver: None,
            speed_check_mode: None,
            response_mode: None,
            dualstack_ip_selection: None,
            no_cache: false,
            no_serve_expired: false,
            force_aaaa_soa: false,
            force_https_soa: false,
            rr_ttl: None,
            rr_ttl_min: None,
            rr_ttl_max: None,
            rr_ttl_reply_max: None,
            cname: None,
            nftset: None,
            subnet: None,
        }
    }

    /// The rule with one more setting applied; `None` for a setting that is
    /// no policy for a domain.
    pub open spec fn with(self, s: SettingSpec) -> Option<DomainRuleSpec> {
        match s {
            SettingSpec::Address(v) => Some(DomainRuleSpec { address: Some(v), ..self }),
            SettingSpec::Nameserver(v) => Some(DomainRuleSpec { nameserver: Some(v), ..self }),
            SettingSpec::SpeedCheckMode(v) => Some(
                DomainRuleSpec { speed_check_mode: Some(v), ..self },
            ),
            SettingSpec::ResponseMode(v) => Some(DomainRuleSpec { response_mode: Some(v), ..self }),
            SettingSpec::DualstackIpSelection(v) => Some(
                DomainRuleSpec { dualstack_ip_selection: Some(v), ..self },
            ),
            SettingSpec::NoCache => Some(DomainRuleSpec { no_cache: true, ..self }),
            SettingSpec::NoServeExpired => Some(DomainRuleSpec { no_serve_expired: true, ..self }),
            SettingSpec::ForceAaaaSoa => Some(DomainRuleSpec { force_aaaa_soa: true, ..self }),
            SettingSpec::ForceHttpsSoa => Some(DomainRuleSpec { force_https_soa: true, ..self }),
            SettingSpec::RrTtl(v) => Some(DomainRuleSpec { rr_ttl: Some(v), ..self }),
            SettingSpec::RrTtlMin(v) => Some(DomainRuleSpec { rr_ttl_min: Some(v), ..self }),
            SettingSpec::RrTtlMax(v) => Some(DomainRuleSpec { rr_ttl_max: Some(v), ..self }),
            SettingSpec::RrTtlReplyMax(v) => Some(
                DomainRuleSpec { rr_ttl_reply_max: Some(v), ..self },
            ),
            SettingSpec::CName(v) => Some(DomainRuleSpec { cname: Some(v), ..self }),
            SettingSpec::Nftset(v) => Some(DomainRuleSpec { nftset: Some(v), ..self }),
            SettingSpec::Subnet(v) => Some(DomainRuleSpec { subnet: Some(v), ..self }),
            _ => None,
        }
    }

    /// The settings of the policy at place `k` in the order of the fields:
    /// the one setting of a policy that is set, nothing for one that is not.
    pub open spec fn piece(self, k: nat) -> Seq<SettingSpec> {
        if k == 0 {
            one(self.address, |v| SettingSpec::Address(v))
        } else if k == 1 {
            one(self.nameserver, |v| SettingSpec::Nameserver(v))
        } else if k == 2 {
            one(self.speed_check_mode, |v| SettingSpec::SpeedCheckMode(v))
        } else if k == 3 {
            one(self.response_mode, |v| SettingSpec::ResponseMode(v))
        } else if k == 4 {
            one(self.dualstack_ip_selection, |v| SettingSpec::DualstackIpSelection(v))
        } else if k == 5 {
            flag(self.no_cache, SettingSpec::NoCache)
        } else if k == 6 {
            flag(self.no_serve_expired, SettingSpec::NoServeExpired)
        } else if k == 7 {
            flag(self.force_aaaa_soa, SettingSpec::ForceAaaaSoa)
        } else if k == 8 {
            flag(self.force_https_soa, SettingSpec::ForceHttpsSoa)
        } else if k == 9 {
            one(self.rr_ttl, |v| SettingSpec::RrTtl(v))
        } else if k == 10 {
            one(self.rr_ttl_min, |v| SettingSpec::RrTtlMin(v))
        } else if k == 11 {
            one(self.rr_ttl_max, |v| SettingSpec::RrTtlMax(v))
        } else if k == 12 {
            one(self.rr_ttl_reply_max, |v| SettingSpec::RrTtlReplyMax(v))
        } else if k == 13 {
            one(self.cname, |v| SettingSpec::CName(v))
        } else if k == 14 {
            one(self.nftset, |v| SettingSpec::Nftset(v))
        } else if k == 15 {
            one(self.subnet, |v| SettingSpec::Subnet(v))
        } else {
            Seq::empty()
        }
    }

    /// The settings of the first `n` policies, in the order of the fields.
    pub open spec fn settings_upto(self, n: nat) -> Seq<SettingSpec>
        decreases n,
    {
        if n == 0 {
            Seq::empty()
        } else {
            self.settings_upto((n - 1) as nat) + self.piece((n - 1) as nat)
        }
    }

    /// The settings that make the rule, in the order of its fields.
    pub open spec fn settings(self) -> Seq<SettingSpec> {
        self.settings_upto(FIELDS as nat)
    }

    /// The rule with its first `n` policies only.
    pub open spec fn upto(self, n: nat) -> DomainRuleSpec {
        DomainRuleSpec {
            address: if n > 0 {
                self.address
            } else {
                None
            },
            nameserver: if n > 1 {
                self.nameserver
            } else {
                None
            },
            speed_check_mode: if n > 2 {
                self.speed_check_mode
            } else {
                None
            },
            response_mode: if n > 3 {
                self.response_mode
            } else {
                None
            },
            dualstack_ip_selection: if n > 4 {
                self.dualstack_ip_selection
            } else {
                None
            },
            no_cache: if n > 5 {
                self.no_cache
            } else {
                false
            },
            no_serve_expired: if n > 6 {
                self.no_serve_expired
            } else {
                false
            },
            force_aaaa_soa: if n > 7 {
                self.force_aaaa_soa
            } else {
                false
            },
            force_https_soa: if n > 8 {
                self.force_https_soa
            } else {
                false
            },
            rr_ttl: if n > 9 {
                self.rr_ttl
            } else {
                None
            },
            rr_ttl_min: if n > 10 {
                self.rr_ttl_min
            } else {
                None
            },
            rr_ttl_max: if n > 11 {
                self.rr_ttl_max
            } else {
                None
            },
            rr_ttl_reply_max: if n > 12 {
                self.rr_ttl_reply_max
            } else {
                None
            },
            cname: if n > 13 {
                self.cname
            } else {
                None
            },
            nftset: if n > 14 {
                self.nftset
            } else {
                None
            },
            subnet: if n > 15 {
                self.subnet
            } else {
                None
            },
        }
    }

    /// Every policy of the rule is in the one form that its text reads
    /// back to.
    pub open spec fn canonical(self) -> bool {
        settings_canonical(self.settings())
    }

    /// The rule in force where this rule is the less specific one and
    /// `child` the more specific: each policy that `child` sets is taken from
    /// it, every other one from this rule, and a switch is on if it is on
    /// in either.
    pub open spec fn merge(self, child: DomainRuleSpec) -> DomainRuleSpec {
        DomainRuleSpec {
            address: if child.address.is_some() {
                child.address
            } else {
                self.address
            },
            nameserver: if child.nameserver.is_some() {
                child.nameserver
            } else {
                self.nameserver
            },
            speed_check_mode: if child.speed_check_mode.is_some() {
                child.speed_check_mode
            } else {
                self.speed_check_mode
            },
            response_mode: if child.response_mode.is_some() {
                child.response_mode
            } else {
                self.response_mode
            },
            dualstack_ip_selection: if child.dualstack_ip_selection.is_some() {
                child.dualstack_ip_selection
            } else {
                self.dualstack_ip_selection
            },
            no_cache: self.no_cache || child.no_cache,
            no_serve_expired: self.no_serve_expired || child.no_serve_expired,
            force_aaaa_soa: self.force_aaaa_soa || child.force_aaaa_soa,
            force_https_soa: self.force_https_soa || child.force_https_soa,
            rr_ttl: if child.rr_ttl.is_some() {
                child.rr_ttl
            } else {
                self.rr_ttl
            },
            rr_ttl_min: if child.rr_ttl_min.is_some() {
                child.rr_ttl_min
            } else {
                self.rr_ttl_min
            },
            rr_ttl_max: if child.rr_ttl_max.is_some() {
                child.rr_ttl_max
            } else {
                self.rr_ttl_max
            },
            rr_ttl_reply_max: if child.rr_ttl_reply_max.is_some() {
                child.rr_ttl_reply_max
            } else {
                self.rr_ttl_reply_max
            },
            cname: if child.cname.is_some() {
                child.cname
            } else {
                self.cname
            },
            nftset: if child.nftset.is_some() {
                child.nftset
            } else {
                self.nftset
            },
            subnet: if child.subnet.is_some() {
                child.subnet
            } else {
                self.subnet
            },
        }
    }
}

/// The rule that a list of settings makes of `rule`, each setting applied in
/// turn; `None` if one of them is no policy for a domain.
pub open spec fn rule_from(rule: DomainRuleSpec, ss: Seq<SettingSpec>) -> Option<DomainRuleSpec>
    decreases ss.len(),
{
    if ss.len() == 0 {
        Some(rule)
    } else {
        match rule.with(ss[0]) {
            Some(r) => rule_from(r, ss.skip(1)),
            None => None,
        }
    }
}

/// Applying two lists in a row is applying the one and then the other.
pub proof fn lemma_rule_from_concat(rule: DomainRuleSpec, a: Seq<SettingSpec>, b: Seq<SettingSpec>)
    ensures
        rule_from(rule, a + b) == match rule_from(rule, a) {
            Some(r) => rule_from(r, b),
            None => None,
        },
    decreases a.len(),
{
    if a.len() == 0 {
        assert(a + b =~= b);
    } else {
        assert((a + b)[0] == a[0]);
        assert((a + b).skip(1) =~= a.skip(1) + b);
        match rule.with(a[0]) {
            Some(r) => {
                lemma_rule_from_concat(r, a.skip(1), b);
            },
            None => {},
        }
    }
}

/// The settings of the first `n` policies of a rule make the rule with
/// those policies only.
pub proof fn lemma_rule_of_settings_upto(r: DomainRuleSpec, n: nat)
    requires
        n <= FIELDS,
    ensures
        rule_from(DomainRuleSpec::empty(), r.settings_upto(n)) == Some(r.upto(n)),
    decreases n,
{
    if n == 0 {
        assert(r.upto(0) == DomainRuleSpec::empty());
    } else {
        let k = (n - 1) as nat;
        lemma_rule_of_settings_upto(r, k);
        lemma_rule_from_concat(DomainRuleSpec::empty(), r.settings_upto(k), r.piece(k));
        let p = r.piece(k);
        let before = r.upto(k);
        if p.len() == 0 {
            assert(r.upto(n) == before);
            assert(rule_from(before, p) == Some(before));
        } else {
            assert(p.len() == 1);
            assert(p.skip(1) =~= Seq::<SettingSpec>::empty());
            assert(before.with(p[0]) == Some(r.upto(n)));
            assert(rule_from(r.upto(n), p.skip(1)) == Some(r.upto(n)));
            assert(rule_from(before, p) == Some(r.upto(n)));
        }
    }
}

/// The settings of a rule make the rule.
pub proof fn lemma_rule_of_settings(r: DomainRuleSpec)
    ensures
        rule_from(DomainRuleSpec::empty(), r.settings()) == Some(r),
{
    lemma_rule_of_settings_upto(r, FIELDS as nat);
    assert(r.upto(FIELDS as nat) == r);
}

/// A copy of a list of bytes that may be absent.
pub fn clone_opt_bytes(v: &Option<Vec<u8>>) -> (out: Option<Vec<u8>>)
    ensures
        opt_bytes_view(out) == opt_bytes_view(*v),
{
    match v {
        Some(b) => Some(vstd::slice::slice_to_vec(b.as_slice())),
        None => None,
    }
}

/// A copy of a list of probe modes.
pub fn clone_modes(v: &Vec<SpeedCheckMode>) -> (out: Vec<SpeedCheckMode>)
    ensures
        out@ == v@,
{
    vstd::slice::slice_to_vec(v.as_slice())
}

/// A copy of a list of packet-filter sets.
pub fn clone_nftsets(v: &Vec<ConfigForIP<NFTsetConfig>>) -> (out: Vec<ConfigForIP<NFTsetConfig>>)
    ensures
        nftsets_view(out@) == nftsets_view(v@),
{
    let mut out: Vec<ConfigForIP<NFTsetConfig>> = Vec::new();
    let mut i: usize = 0;
    while i < v.len()
        invariant
            i <= v.len(),
            out@.len() == i,
            forall|k: int| 0 <= k < i ==> nftset_view(out@[k]) == nftset_view(v@[k]),
        decreases v.len() - i,
    {
        let e = match &v[i] {
            ConfigForIP::V4(c) => ConfigForIP::V4(c.clone()),
            ConfigForIP::V6(c) => ConfigForIP::V6(c.clone()),
            ConfigForIP::Unset => ConfigForIP::Unset,
        };
        out.push(e);
        i += 1;
    }
    assert(nftsets_view(out@) =~= nftsets_view(v@));
    out
}

/// Appends a setting to a list.
fn push_setting(out: &mut Vec<Setting>, s: Setting)
    ensures
        settings_view(final(out)@) == settings_view(old(out)@) + seq![s@],
{
    out.push(s);
    assert(settings_view(out@) =~= settings_view(old(out)@) + seq![s@]);
}

impl Default for DomainRule {
    /// The rule that sets no policy.
    fn default() -> (out: Self)
        ensures
            out@ == DomainRuleSpec::empty(),
    {
        DomainRule {
            address: None,
            nameserver: None,
            speed_check_mode: None,
            response_mode: None,
            dualstack_ip_selection: None,
            no_cache: false,
            no_serve_expired: false,
            force_aaaa_soa: false,
            force_https_soa: false,
            rr_ttl: None,
            rr_ttl_min: None,
            rr_ttl_max: None,
            rr_ttl_reply_max: None,
            cname: None,
            nftset: None,
            subnet: None,
        }
    }
}

impl Clone for DomainRule {
    fn clone(&self) -> (out: Self)
        ensures
            out@ == self@,
    {
        DomainRule {
            address: self.address,
            nameserver: clone_opt_bytes(&self.nameserver),
            speed_check_mode: match &self.speed_check_mode {
                Some(v) => Some(clone_modes(v)),
                None => None,
            },
            response_mode: self.response_mode,
            dualstack_ip_selection: self.dualstack_ip_selection,
            no_cache: self.no_cache,
            no_serve_expired: self.no_serve_expired,
            force_aaaa_soa: self.force_aaaa_soa,
            force_https_soa: self.force_https_soa,
            rr_ttl: self.rr_ttl,
            rr_ttl_min: self.rr_ttl_min,
            rr_ttl_max: self.rr_ttl_max,
            rr_ttl_reply_max: self.rr_ttl_reply_max,
            cname: match &self.cname {
                Some(v) => Some(v.clone()),
                None => None,
            },
            nftset: match &self.nftset {
                Some(v) => Some(clone_nftsets(v)),
                None => None,
            },
            subnet: self.subnet,
        }
    }
}

impl DomainRule {
    /// Applies one more setting to the rule. Returns `false`, and leaves the
    /// rule as it is, for a setting that is no policy for a domain.
    pub fn apply(&mut self, s: &Setting) -> (ok: bool)
        ensures
            ok == old(self)@.with(s@).is_some(),
            ok ==> Some(final(self)@) == old(self)@.with(s@),
            !ok ==> final(self)@ == old(self)@,
    {
        match s {
            Setting::Address(v) => {
                self.address = Some(*v);
                true
            },
            Setting::Nameserver(v) => {
                self.nameserver = Some(vstd::slice::slice_to_vec(v.as_slice()));
                true
            },
            Setting::SpeedCheckMode(v) => {
                self.speed_check_mode = Some(clone_modes(v));
                true
            },
            Setting::ResponseMode(v) => {
                self.response_mode = Some(*v);
                true
            },
            Setting::DualstackIpSelection(v) => {
                self.dualstack_ip_selection = Some(*v);
                true
            },
            Setting::NoCache => {
                self.no_cache = true;
                true
            },
            Setting::NoServeExpired => {
                self.no_serve_expired = true;
                true
            },
            Setting::ForceAaaaSoa => {
                self.force_aaaa_soa = true;
                true
            },
            Setting::ForceHttpsSoa => {
                self.force_https_soa = true;
                true
            },
            Setting::RrTtl(v) => {
                self.rr_ttl = Some(*v);
                true
            },
            Setting::RrTtlMin(v) => {
                self.rr_ttl_min = Some(*v);
                true
            },
            Setting::RrTtlMax(v) => {
                self.rr_ttl_max = Some(*v);
                true
            },
            Setting::RrTtlReplyMax(v) => {
                self.rr_ttl_reply_max = Some(*v);
                true
            },
            Setting::CName(v) => {
                self.cname = Some(v.clone());
                true
            },
            Setting::Nftset(v) => {
                self.nftset = Some(clone_nftsets(v));
                true
            },
            Setting::Subnet(v) => {
                self.subnet = Some(*v);
                true
            },
            _ => false,
        }
    }

    /// The rule that a list of settings makes, each applied in turn to the
    /// rule without policies; `None` if one of them is no policy for a domain.
    pub fn from_settings(settings: &Vec<Setting>) -> (out: Option<DomainRule>)
        ensures
            out.is_some() == rule_from(DomainRuleSpec::empty(), settings_view(settings@)).is_some(),
            out matches Some(r) ==> rule_from(DomainRuleSpec::empty(), settings_view(settings@))
                == Some(r@),
    {
        let mut rule = DomainRule::default();
        let mut i: usize = 0;
        let ghost all = settings_view(settings@);
        assert(all.skip(0) =~= all);
        while i < settings.len()
            invariant
                i <= settings.len(),
                all == settings_view(settings@),
                rule_from(DomainRuleSpec::empty(), all) == rule_from(rule@, all.skip(i as int)),
            decreases settings.len() - i,
        {
            proof {
                assert(all.skip(i as int)[0] == settings@[i as int]@);
                assert(all.skip(i as int).skip(1) =~= all.skip(i + 1));
            }
            if !rule.apply(&settings[i]) {
                return None;
            }
            i += 1;
        }
        Some(rule)
    }

    /// Appends the settings of the policy at place `k` in the order of the
    /// fields.
    fn put_piece(&self, k: usize, out: &mut Vec<Setting>)
        ensures
            settings_view(final(out)@) == settings_view(old(out)@) + self@.piece(k as nat),
    {
        let s: Option<Setting> = if k == 0 {
            match &self.address {
                Some(v) => Some(Setting::Address(*v)),
                None => None,
            }
        } else if k == 1 {
            match &self.nameserver {
                Some(v) => Some(Setting::Nameserver(vstd::slice::slice_to_vec(v.as_slice()))),
                None => None,
            }
        } else if k == 2 {
            match &self.speed_check_mode {
                Some(v) => Some(Setting::SpeedCheckMode(clone_modes(v))),
                None => None,
            }
        } else if k == 3 {
            match &self.response_mode {
                Some(v) => Some(Setting::ResponseMode(*v)),
                None => None,
            }
        } else if k == 4 {
            match &self.dualstack_ip_selection {
                Some(v) => Some(Setting::DualstackIpSelection(*v)),
                None => None,
            }
        } else if k == 5 {
            if self.no_cache {
                Some(Setting::NoCache)
            } else {
                None
            }
        } else if k == 6 {
            if self.no_serve_expired {
                Some(Setting::NoServeExpired)
            } else {
                None
            }
        } else if k == 7 {
            if self.force_aaaa_soa {
                Some(Setting::ForceAaaaSoa)
            } else {
                None
            }
        } else if k == 8 {
            if self.force_https_soa {
                Some(Setting::ForceHttpsSoa)
            } else {
                None
            }
        } else if k == 9 {
            match &self.rr_ttl {
                Some(v) => Some(Setting::RrTtl(*v)),
                None => None,
            }
        } else if k == 10 {
            match &self.rr_ttl_min {
                Some(v) => Some(Setting::RrTtlMin(*v)),
                None => None,
            }
        } else if k == 11 {
            match &self.rr_ttl_max {
                Some(v) => Some(Setting::RrTtlMax(*v)),
                None => None,
            }
        } else if k == 12 {
            match &self.rr_ttl_reply_max {
                Some(v) => Some(Setting::RrTtlReplyMax(*v)),
                None => None,
            }
        } else if k == 13 {
            match &self.cname {
                Some(v) => Some(Setting::CName(v.clone())),
                None => None,
            }
        } else if k == 14 {
            match &self.nftset {
                Some(v) => Some(Setting::Nftset(clone_nftsets(v))),
                None => None,
            }
        } else if k == 15 {
            match &self.subnet {
                Some(v) => Some(Setting::Subnet(*v)),
                None => None,
            }
        } else {
            None
        };
        match s {
            Some(s) => {
                push_setting(out, s);
            },
            None => {
                assert(settings_view(out@) + Seq::<SettingSpec>::empty() =~= settings_view(out@));
            },
        }
    }

    /// The settings that make the rule, in the order of its fields.
    pub fn to_settings(&self) -> (out: Vec<Setting>)
        ensures
            settings_view(out@) == self@.settings(),
    {
        let mut out: Vec<Setting> = Vec::new();
        let mut k: usize = 0;
        assert(settings_view(out@) =~= self@.settings_upto(0));
        while k < FIELDS
            invariant
                k <= FIELDS,
                settings_view(out@) == self@.settings_upto(k as nat),
            decreases FIELDS - k,
        {
            self.put_piece(k, &mut out);
            k += 1;
        }
        out
    }

    /// The rule in force where `parent` is the less specific rule and
    /// `child` the more specific one.
    pub fn merge(parent: &DomainRule, child: &DomainRule) -> (out: DomainRule)
        ensures
            out@ == parent@.merge(child@),
    {
        DomainRule {
            address: if child.address.is_some() {
                child.address
            } else {
                parent.address
            },
            nameserver: if child.nameserver.is_some() {
                clone_opt_bytes(&child.nameserver)
            } else {
                clone_opt_bytes(&parent.nameserver)
            },
            speed_check_mode: match (&child.speed_check_mode, &parent.speed_check_mode) {
                (Some(v), _) => Some(clone_modes(v)),
                (None, Some(v)) => Some(clone_modes(v)),
                (None, None) => None,
            },
            response_mode: if child.response_mode.is_some() {
                child.response_mode
            } else {
                parent.response_mode
            },
            dualstack_ip_selection: if child.dualstack_ip_selection.is_some() {
                child.dualstack_ip_selection
            } else {
                parent.dualstack_ip_selection
            },
            no_cache: parent.no_cache || child.no_cache,
            no_serve_expired: parent.no_serve_expired || child.no_serve_expired,
            force_aaaa_soa: parent.force_aaaa_soa || child.force_aaaa_soa,
            force_https_soa: parent.force_https_soa || child.force_https_soa,
            rr_ttl: if child.rr_ttl.is_some() {
                child.rr_ttl
            } else {
                parent.rr_ttl
            },
            rr_ttl_min: if child.rr_ttl_min.is_some() {
                child.rr_ttl_min
            } else {
                parent.rr_ttl_min
            },
            rr_ttl_max: if child.rr_ttl_max.is_some() {
                child.rr_ttl_max
            } else {
                parent.rr_ttl_max
            },
            rr_ttl_reply_max: if child.rr_ttl_reply_max.is_some() {
                child.rr_ttl_reply_max
            } else {
                parent.rr_ttl_reply_max
            },
            cname: match (&child.cname, &parent.cname) {
                (Some(v), _) => Some(v.clone()),
                (None, Some(v)) => Some(v.clone()),
                (None, None) => None,
            },
            nftset: match (&child.nftset, &parent.nftset) {
                (Some(v), _) => Some(clone_nftsets(v)),
                (None, Some(v)) => Some(clone_nftsets(v)),
                (None, None) => None,
            },
            subnet: if child.subnet.is_some() {
                child.subnet
            } else {
                parent.subnet
            },
        }
    }
}

} // verus!
