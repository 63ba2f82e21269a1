//! What a configuration line can attach to a domain, and the named sets and
//! client rules that it can declare.

use crate::config::domain::{
    lemma_domain_round_trip, lemma_domain_text_bytes, parse_domain_spec, Domain, DomainSpec,
};
use crate::config::rule::{clone_modes, opt_bytes_view};
use crate::config::setting::{settings_view, Setting, SettingSpec};
use crate::config::value::{
    address_value_text, lemma_address_value_round_trip, nftsets_view, parse_address_value_spec,
    parse_cname_spec, parse_nftsets, parse_nftsets_spec, AddressRuleValue, CNameRule, CNameSpec,
    ConfigForIP, NFTsetConfig, NftsetSpec, SpeedCheckMode,
};
use crate::ip::{IpOrSet, IpOrSetSpec};
use crate::text::{
    check_word, field_len, is_keyword, is_line_end, is_set_name_byte, is_space, is_word, kw,
    lemma_field_len_is, lowered, push_bytes, rows, to_lowered, SLASH,
};
use vstd::prelude::*;

verus! {

/// A value attached to a domain.
#[derive(Debug, PartialEq, Eq, Hash)]
pub struct ConfigForDomain<T> {
    pub domain: Domain,
    pub config: T,
}

/// What a word of the form `/domain/rest` spells: the domain between the
/// slashes, and what stands behind the second slash.
pub open spec fn slashed_spec(w: Seq<u8>) -> Option<(DomainSpec, Seq<u8>)> {
    if w.len() >= 2 && w[0] == SLASH {
        let body = w.skip(1);
        let n = field_len(body, SLASH);
        if n < body.len() {
            match parse_domain_spec(body.take(n)) {
                Some(d) => Some((d, body.skip(n + 1))),
                None => None,
            }
        } else {
            None
        }
    } else {
        None
    }
}

/// A domain between slashes, and `rest` behind them.
pub open spec fn slashed_text(d: DomainSpec, rest: Seq<u8>) -> Seq<u8> {
    seq![SLASH] + d.text() + seq![SLASH] + rest
}

/// Reading a word written as `/domain/rest` gives the domain and the rest
/// back; the word is a word if the rest holds no separator.
pub proof fn lemma_slashed_round_trip(d: DomainSpec, rest: Seq<u8>)
    requires
        d.canonical(),
    ensures
        slashed_spec(slashed_text(d, rest)) == Some((d, rest)),
        (forall|i: int| 0 <= i < rest.len() ==> !is_space(#[trigger] rest[i]) && !is_line_end(rest[i]))
            ==> is_word(slashed_text(d, rest)),
{
    let t = d.text();
    let w = slashed_text(d, rest);
    lemma_domain_round_trip(d);
    lemma_domain_text_bytes(d);
    let body = w.skip(1);
    assert(body =~= t + seq![SLASH] + rest);
    assert forall|i: int| 0 <= i < t.len() implies #[trigger] body[i] != SLASH by {
        assert(body[i] == t[i]);
        assert(is_set_name_byte(t[i]));
    }
    assert(body[t.len() as int] == SLASH);
    lemma_field_len_is(body, SLASH, t.len() as int);
    assert(body.take(t.len() as int) =~= t);
    assert(body.skip(t.len() as int + 1) =~= rest);
    if forall|i: int| 0 <= i < rest.len() ==> !is_space(#[trigger] rest[i]) && !is_line_end(rest[i]) {
        assert forall|i: int| 0 <= i < w.len() implies !is_space(#[trigger] w[i]) && !is_line_end(
            w[i],
        ) by {
            if 1 <= i <= t.len() {
                assert(w[i] == t[i - 1]);
                assert(is_set_name_byte(t[i - 1]));
            } else if i > t.len() + 1 {
                assert(w[i] == rest[i - t.len() - 2]);
            }
        }
    }
}

/// Reads a word of the form `/domain/rest`: the domain, and the place in the
/// word where the rest starts.
pub fn parse_slashed(word: &[u8]) -> (r: Option<(Domain, usize)>)
    ensures
        r.is_some() == slashed_spec(word@).is_some(),
        r matches Some((d, at)) ==> at <= word.len() && slashed_spec(word@) == Some(
            (d@, word@.skip(at as int)),
        ),
{
    if word.len() < 2 || word[0] != SLASH {
        return None;
    }
    let body = vstd::slice::slice_subrange(word, 1, word.len());
    assert(body@ =~= word@.skip(1));
    let mut n: usize = 0;
    assert(body@.skip(0) =~= body@);
    while n < body.len() && body[n] != SLASH
        invariant
            n <= body.len(),
            field_len(body@, SLASH) == n + field_len(body@.skip(n as int), SLASH),
        decreases body.len() - n,
    {
        proof {
            let t = body@.skip(n as int);
            assert(t[0] == body@[n as int]);
            assert(t.skip(1) =~= body@.skip(n + 1));
        }
        n += 1;
    }
    proof {
        let t = body@.skip(n as int);
        if n < body.len() {
            assert(t[0] == body@[n as int]);
        }
    }
    if n >= body.len() {
        return None;
    }
    let inner = vstd::slice::slice_subrange(body, 0, n);
    assert(inner@ =~= body@.take(n as int));
    assert(body@.skip(n + 1) =~= word@.skip(n + 2));
    match Domain::from_bytes(inner) {
        Some(d) => Some((d, n + 2)),
        None => None,
    }
}

/// Writes `/domain/` and `rest` behind it.
pub fn format_slashed(d: &Domain, rest: &[u8]) -> (out: Vec<u8>)
    ensures
        out@ == slashed_text(d@, rest@),
{
    let mut out: Vec<u8> = Vec::new();
    out.push(SLASH);
    let t = d.to_bytes();
    push_bytes(&mut out, t.as_slice());
    out.push(SLASH);
    push_bytes(&mut out, rest);
    assert(out@ =~= slashed_text(d@, rest@));
    out
}

/// Whether the word is a domain between slashes with nothing behind the
/// second slash.
pub open spec fn is_open_slashed(w: Seq<u8>) -> bool {
    match slashed_spec(w) {
        Some((_, rest)) => rest.len() == 0,
        None => false,
    }
}

/// The text `/domain/value` at the start of a list of words, and the number
/// of words that it is written in. The value stands behind the second slash;
/// where nothing stands there, the value is the next word, whatever that
/// word starts with.
pub open spec fn slashed_value_spec(ws: Seq<Seq<u8>>) -> Option<(Seq<u8>, nat)> {
    if ws.len() == 0 {
        None
    } else if ws.len() >= 2 && is_open_slashed(ws[0]) {
        Some((ws[0] + ws[1], 2nat))
    } else {
        Some((ws[0], 1nat))
    }
}

/// Reads the text `/domain/value` that starts at word `at`, the value in
/// the same word or in the next, and says how many words it takes.
pub fn slashed_value(ws: &Vec<Vec<u8>>, at: usize) -> (r: Option<(Vec<u8>, usize)>)
    requires
        at <= ws.len(),
    ensures
        r.is_some() == slashed_value_spec(rows(ws@).skip(at as int)).is_some(),
        r matches Some((w, n)) ==> at + n <= ws.len() && slashed_value_spec(
            rows(ws@).skip(at as int),
        ) == Some((w@, n as nat)),
{
    let ghost rest = rows(ws@).skip(at as int);
    if at >= ws.len() {
        return None;
    }
    let first = ws[at].as_slice();
    assert(rest[0] == first@);
    let open = match parse_slashed(first) {
        Some((_, from)) => from == first.len(),
        None => false,
    };
    let mut out = vstd::slice::slice_to_vec(first);
    if open && at + 1 < ws.len() {
        let second = ws[at + 1].as_slice();
        assert(rest[1] == second@);
        push_bytes(&mut out, second);
        Some((out, 2))
    } else {
        Some((out, 1))
    }
}

/// The answer forced for a domain.
#[derive(Debug, PartialEq, Eq, Hash)]
pub struct AddressRule {
    pub domain: Domain,
    pub address: AddressRuleValue,
}

/// What a word of the form `/domain/answer` spells.
pub open spec fn parse_address_rule_spec(w: Seq<u8>) -> Option<(DomainSpec, AddressRuleValue)> {
    match slashed_spec(w) {
        Some((d, rest)) => match parse_address_value_spec(rest) {
            Some(v) => Some((d, v)),
            None => None,
        },
        None => None,
    }
}

/// Reading `/domain/answer` gives the domain and the answer back.
pub proof fn lemma_address_rule_round_trip(d: DomainSpec, v: AddressRuleValue)
    requires
        d.canonical(),
    ensures
        parse_address_rule_spec(slashed_text(d, address_value_text(v))) == Some((d, v)),
        is_word(slashed_text(d, address_value_text(v))),
{
    lemma_address_value_round_trip(v);
    lemma_slashed_round_trip(d, address_value_text(v));
}

impl AddressRule {
    /// Reads `/domain/answer`.
    pub fn from_bytes(word: &[u8]) -> (r: Option<AddressRule>)
        ensures
            r.is_some() == parse_address_rule_spec(word@).is_some(),
            r matches Some(a) ==> parse_address_rule_spec(word@) == Some((a.domain@, a.address)),
    {
        match parse_slashed(word) {
            Some((domain, at)) => {
                let rest = vstd::slice::slice_subrange(word, at, word.len());
                assert(rest@ =~= word@.skip(at as int));
                match AddressRuleValue::from_bytes(rest) {
                    Some(address) => Some(AddressRule { domain, address }),
                    None => None,
                }
            },
            None => None,
        }
    }

    /// Writes `/domain/answer`.
    pub fn to_bytes(&self) -> (out: Vec<u8>)
        ensures
            out@ == slashed_text(self.domain@, address_value_text(self.address)),
    {
        let v = self.address.to_bytes();
        format_slashed(&self.domain, v.as_slice())
    }
}

/// The group of upstream servers that resolves a domain.
#[derive(Debug, PartialEq, Eq, Hash)]
pub struct ForwardRule {
    pub domain: Domain,
    pub nameserver: Vec<u8>,
}

/// What a word of the form `/domain/group` spells.
pub open spec fn parse_forward_rule_spec(w: Seq<u8>) -> Option<(DomainSpec, Seq<u8>)> {
    match slashed_spec(w) {
        Some((d, rest)) => if is_word(rest) {
            Some((d, rest))
        } else {
            None
        },
        None => None,
    }
}

impl ForwardRule {
    /// Reads `/domain/group`.
    pub fn from_bytes(word: &[u8]) -> (r: Option<ForwardRule>)
        ensures
            r.is_some() == parse_forward_rule_spec(word@).is_some(),
            r matches Some(f) ==> parse_forward_rule_spec(word@) == Some(
                (f.domain@, f.nameserver@),
            ),
    {
        match parse_slashed(word) {
            Some((domain, at)) => {
                let rest = vstd::slice::slice_subrange(word, at, word.len());
                assert(rest@ =~= word@.skip(at as int));
                if check_word(rest) {
                    Some(ForwardRule { domain, nameserver: vstd::slice::slice_to_vec(rest) })
                } else {
                    None
                }
            },
            None => None,
        }
    }

    /// Writes `/domain/group`.
    pub fn to_bytes(&self) -> (out: Vec<u8>)
        ensures
            out@ == slashed_text(self.domain@, self.nameserver@),
    {
        format_slashed(&self.domain, self.nameserver.as_slice())
    }
}

/// What a word of the form `/domain/name` spells, where the name is the
/// alias of the domain.
pub open spec fn parse_cname_rule_spec(w: Seq<u8>) -> Option<(DomainSpec, CNameSpec)> {
    match slashed_spec(w) {
        Some((d, rest)) => match parse_cname_spec(rest) {
            Some(c) => Some((d, c)),
            None => None,
        },
        None => None,
    }
}

/// Reads `/domain/name`.
pub fn parse_cname_rule(word: &[u8]) -> (r: Option<ConfigForDomain<CNameRule>>)
    ensures
        r.is_some() == parse_cname_rule_spec(word@).is_some(),
        r matches Some(c) ==> parse_cname_rule_spec(word@) == Some((c.domain@, c.config@)),
{
    match parse_slashed(word) {
        Some((domain, at)) => {
            let rest = vstd::slice::slice_subrange(word, at, word.len());
            assert(rest@ =~= word@.skip(at as int));
            match CNameRule::from_bytes(rest) {
                Some(config) => Some(ConfigForDomain { domain, config }),
                None => None,
            }
        },
        None => None,
    }
}

/// What a word of the form `/domain/sets` spells, where the sets are a list
/// of packet-filter sets.
pub open spec fn parse_nftset_rule_spec(w: Seq<u8>) -> Option<
    (DomainSpec, Seq<ConfigForIP<NftsetSpec>>),
> {
    match slashed_spec(w) {
        Some((d, rest)) => match parse_nftsets_spec(rest) {
            Some(c) => Some((d, c)),
            None => None,
        },
        None => None,
    }
}

/// Reads `/domain/sets`.
pub fn parse_nftset_rule(
    word: &[u8],
) -> (r: Option<ConfigForDomain<Vec<ConfigForIP<NFTsetConfig>>>>)
    ensures
        r.is_some() == parse_nftset_rule_spec(word@).is_some(),
        r matches Some(c) ==> parse_nftset_rule_spec(word@) == Some(
            (c.domain@, nftsets_view(c.config@)),
        ),
{
    match parse_slashed(word) {
        Some((domain, at)) => {
            let rest = vstd::slice::slice_subrange(word, at, word.len());
            assert(rest@ =~= word@.skip(at as int));
            match parse_nftsets(rest) {
                Some(config) => Some(ConfigForDomain { domain, config }),
                None => None,
            }
        },
        None => None,
    }
}

/// The format of the file that holds a set of domains.
#[derive(Debug, Clone, Copy, PartialEq, Eq, Hash, Structural)]
pub enum DomainSetContentType {
    /// One domain or pattern on each line.
    List,
}

impl Default for DomainSetContentType {
    fn default() -> (out: Self)
        ensures
            out == DomainSetContentType::List,
    {
        DomainSetContentType::List
    }
}

/// A set of domains kept in a file.
#[derive(Debug, PartialEq, Eq, Hash)]
pub struct DomainSetFileProvider {
    pub name: Vec<u8>,
    pub file: Vec<u8>,
    pub content_type: DomainSetContentType,
}

/// Where a named set of domains comes from.
#[derive(Debug, PartialEq, Eq, Hash)]
pub enum DomainSetProvider {
    File(DomainSetFileProvider),
}

/// A named set kept in a file: the name and the path.
pub struct FileSetSpec {
    pub name: Seq<u8>,
    pub file: Seq<u8>,
}

impl View for DomainSetProvider {
    type V = FileSetSpec;

    open spec fn view(&self) -> FileSetSpec {
        match self {
            DomainSetProvider::File(p) => FileSetSpec { name: p.name@, file: p.file@ },
        }
    }
}

/// What has been read of the options of a named set.
pub struct FileSetDraft {
    pub name: Option<Seq<u8>>,
    pub file: Option<Seq<u8>>,
}

impl FileSetDraft {
    /// The draft with one more setting applied; `None` for a setting that
    /// is no option of a set, and for a format other than `list`. The format
    /// is an option of sets of domains only.
    pub open spec fn with(self, s: SettingSpec, typed: bool) -> Option<FileSetDraft> {
        match s {
            SettingSpec::Name(v) => Some(FileSetDraft { name: Some(v), ..self }),
            SettingSpec::File(v) => Some(FileSetDraft { file: Some(v), ..self }),
            SettingSpec::ContentType(v) => if typed && lowered(v) == kw("list") {
                Some(self)
            } else {
                None
            },
            _ => None,
        }
    }
}

/// The draft that a list of settings makes of `draft`.
pub open spec fn file_set_from(draft: FileSetDraft, ss: Seq<SettingSpec>, typed: bool) -> Option<
    FileSetDraft,
>
    decreases ss.len(),
{
    if ss.len() == 0 {
        Some(draft)
    } else {
        match draft.with(ss[0], typed) {
            Some(d) => file_set_from(d, ss.skip(1), typed),
            None => None,
        }
    }
}

/// The set that a list of settings declares: they must give it a name and a
/// file.
pub open spec fn file_set_of(ss: Seq<SettingSpec>, typed: bool) -> Option<FileSetSpec> {
    match file_set_from(FileSetDraft { name: None, file: None }, ss, typed) {
        Some(d) => match (d.name, d.file) {
            (Some(name), Some(file)) => Some(FileSetSpec { name, file }),
            _ => None,
        },
        None => None,
    }
}

/// The settings that declare a set.
pub open spec fn file_set_settings(s: FileSetSpec) -> Seq<SettingSpec> {
    seq![SettingSpec::Name(s.name), SettingSpec::File(s.file)]
}

/// The settings of a set declare the set.
pub proof fn lemma_file_set_of_settings(s: FileSetSpec, typed: bool)
    ensures
        file_set_of(file_set_settings(s), typed) == Some(s),
{
    let ss = file_set_settings(s);
    let d0 = FileSetDraft { name: None, file: None };
    let d1 = FileSetDraft { name: Some(s.name), file: None };
    let d2 = FileSetDraft { name: Some(s.name), file: Some(s.file) };
    assert(ss.skip(1) =~= seq![SettingSpec::File(s.file)]);
    assert(ss.skip(1).skip(1) =~= Seq::<SettingSpec>::empty());
    assert(file_set_from(d2, ss.skip(1).skip(1), typed) == Some(d2));
    assert(file_set_from(d1, ss.skip(1), typed) == Some(d2));
    assert(file_set_from(d0, ss, typed) == Some(d2));
}

/// Reads the name and the file of a set from its settings.
fn read_file_set(settings: &Vec<Setting>, typed: bool) -> (r: Option<(Vec<u8>, Vec<u8>)>)
    ensures
        r.is_some() == file_set_of(settings_view(settings@), typed).is_some(),
        r matches Some((name, file)) ==> file_set_of(settings_view(settings@), typed) == Some(
            FileSetSpec { name: name@, file: file@ },
        ),
{
    let mut name: Option<Vec<u8>> = None;
    let mut file: Option<Vec<u8>> = None;
    let mut i: usize = 0;
    let ghost all = settings_view(settings@);
    let ghost start = FileSetDraft { name: None, file: None };
    assert(all.skip(0) =~= all);
    while i < settings.len()
        invariant
            i <= settings.len(),
            all == settings_view(settings@),
            start == (FileSetDraft { name: None, file: None }),
            file_set_from(start, all, typed) == file_set_from(
                FileSetDraft { name: opt_bytes_view(name), file: opt_bytes_view(file) },
                all.skip(i as int),
                typed,
            ),
        decreases settings.len() - i,
    {
        proof {
            assert(all.skip(i as int)[0] == settings@[i as int]@);
            assert(all.skip(i as int).skip(1) =~= all.skip(i + 1));
        }
        match &settings[i] {
            Setting::Name(v) => {
                name = Some(vstd::slice::slice_to_vec(v.as_slice()));
            },
            Setting::File(v) => {
                file = Some(vstd::slice::slice_to_vec(v.as_slice()));
            },
            Setting::ContentType(v) => {
                let t = to_lowered(v.as_slice());
                if !typed || !is_keyword(t.as_slice(), "list") {
                    return None;
                }
            },
            _ => {
                return None;
            },
        }
        i += 1;
    }
    match (name, file) {
        (Some(name), Some(file)) => Some((name, file)),
        _ => None,
    }
}

impl DomainSetProvider {
    /// The set of domains that a list of settings declares.
    pub fn from_settings(settings: &Vec<Setting>) -> (r: Option<DomainSetProvider>)
        ensures
            r.is_some() == file_set_of(settings_view(settings@), true).is_some(),
            r matches Some(p) ==> file_set_of(settings_view(settings@), true) == Some(p@),
    {
        match read_file_set(settings, true) {
            Some((name, file)) => Some(
                DomainSetProvider::File(
                    DomainSetFileProvider { name, file, content_type: DomainSetContentType::List },
                ),
            ),
            None => None,
        }
    }

    /// The settings that declare the set.
    pub fn to_settings(&self) -> (out: Vec<Setting>)
        ensures
            settings_view(out@) == file_set_settings(self@),
    {
        let mut out: Vec<Setting> = Vec::new();
        match self {
            DomainSetProvider::File(p) => {
                out.push(Setting::Name(vstd::slice::slice_to_vec(p.name.as_slice())));
                out.push(Setting::File(vstd::slice::slice_to_vec(p.file.as_slice())));
            },
        }
        assert(settings_view(out@) =~= file_set_settings(self@));
        out
    }
}

/// A named set of address blocks kept in a file.
#[derive(Debug, PartialEq, Eq, Hash)]
pub struct IpSetProvider {
    pub name: Vec<u8>,
    pub file: Vec<u8>,
}

impl View for IpSetProvider {
    type V = FileSetSpec;

    open spec fn view(&self) -> FileSetSpec {
        FileSetSpec { name: self.name@, file: self.file@ }
    }
}

impl IpSetProvider {
    /// The set of address blocks that a list of settings declares.
    pub fn from_settings(settings: &Vec<Setting>) -> (r: Option<IpSetProvider>)
        ensures
            r.is_some() == file_set_of(settings_view(settings@), false).is_some(),
            r matches Some(p) ==> file_set_of(settings_view(settings@), false) == Some(p@),
    {
        match read_file_set(settings, false) {
            Some((name, file)) => Some(IpSetProvider { name, file }),
            None => None,
        }
    }

    /// The settings that declare the set.
    pub fn to_settings(&self) -> (out: Vec<Setting>)
        ensures
            settings_view(out@) == file_set_settings(self@),
    {
        let mut out: Vec<Setting> = Vec::new();
        out.push(Setting::Name(vstd::slice::slice_to_vec(self.name.as_slice())));
        out.push(Setting::File(vstd::slice::slice_to_vec(self.file.as_slice())));
        assert(settings_view(out@) =~= file_set_settings(self@));
        out
    }
}

/// The policies for the queries of some clients.
#[derive(Debug, PartialEq, Eq, Hash)]
pub struct ClientRule {
    /// The clients: an address block or a named set of blocks.
    pub client: IpOrSet,
    /// The group whose rules and servers serve the clients.
    pub group: Option<Vec<u8>>,
    /// Answers to the clients are not kept in the cache.
    pub no_cache: bool,
    /// How the time to reach an address is measured for the clients.
    pub speed_check_mode: Option<Vec<SpeedCheckMode>>,
}

/// The mathematical content of a `ClientRule`.
pub struct ClientRuleSpec {
    pub client: IpOrSetSpec,
    pub group: Option<Seq<u8>>,
    pub no_cache: bool,
    pub speed_check_mode: Option<Seq<SpeedCheckMode>>,
}

impl View for ClientRule {
    type V = ClientRuleSpec;

    open spec fn view(&self) -> ClientRuleSpec {
        ClientRuleSpec {
            client: self.client@,
            group: opt_bytes_view(self.group),
            no_cache: self.no_cache,
            speed_check_mode: match self.speed_check_mode {
                Some(v) => Some(v@),
                None => None,
            },
        }
    }
}

impl ClientRuleSpec {
    /// The rule with one more setting applied; `None` for a setting that is
    /// no policy for clients.
    pub open spec fn with(self, s: SettingSpec) -> Option<ClientRuleSpec> {
        match s {
            SettingSpec::Group(v) => Some(ClientRuleSpec { group: Some(v), ..self }),
            SettingSpec::NoCache => Some(ClientRuleSpec { no_cache: true, ..self }),
            SettingSpec::SpeedCheckMode(v) => Some(
                ClientRuleSpec { speed_check_mode: Some(v), ..self },
            ),
            _ => None,
        }
    }

    /// The rule for the clients that sets no policy.
    pub open spec fn empty(client: IpOrSetSpec) -> ClientRuleSpec {
        ClientRuleSpec { client, group: None, no_cache: false, speed_check_mode: None }
    }
}

/// The rule that a list of settings makes of `rule`.
pub open spec fn client_rule_from(rule: ClientRuleSpec, ss: Seq<SettingSpec>) -> Option<
    ClientRuleSpec,
>
    decreases ss.len(),
{
    if ss.len() == 0 {
        Some(rule)
    } else {
        match rule.with(ss[0]) {
            Some(r) => client_rule_from(r, ss.skip(1)),
            None => None,
        }
    }
}

impl ClientRule {
    /// The rule for `client` that a list of settings makes.
    pub fn from_settings(client: IpOrSet, settings: &Vec<Setting>) -> (r: Option<ClientRule>)
        ensures
            r.is_some() == client_rule_from(
                ClientRuleSpec::empty(client@),
                settings_view(settings@),
            ).is_some(),
            r matches Some(c) ==> client_rule_from(
                ClientRuleSpec::empty(client@),
                settings_view(settings@),
            ) == Some(c@),
    {
        let ghost start = ClientRuleSpec::empty(client@);
        let mut rule = ClientRule { client, group: None, no_cache: false, speed_check_mode: None };
        let mut i: usize = 0;
        let ghost all = settings_view(settings@);
        assert(all.skip(0) =~= all);
        while i < settings.len()
            invariant
                i <= settings.len(),
                all == settings_view(settings@),
                start == ClientRuleSpec::empty(client@),
                client_rule_from(start, all) == client_rule_from(rule@, all.skip(i as int)),
            decreases settings.len() - i,
        {
            proof {
                assert(all.skip(i as int)[0] == settings@[i as int]@);
                assert(all.skip(i as int).skip(1) =~= all.skip(i + 1));
            }
            match &settings[i] {
                Setting::Group(v) => {
                    rule.group = Some(vstd::slice::slice_to_vec(v.as_slice()));
                },
                Setting::NoCache => {
                    rule.no_cache = true;
                },
                Setting::SpeedCheckMode(v) => {
                    rule.speed_check_mode = Some(clone_modes(v));
                },
                _ => {
                    return None;
                },
            }
            i += 1;
        }
        Some(rule)
    }
}

} // verus!
