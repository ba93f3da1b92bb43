//! What is known about an address, and the decisions of the enrichment
//! worker: which source is asked, when a threat score is refreshed, what
//! happens to a row whose lookup ran out of quota.
use vstd::prelude::*;
use crate::json::{
    json_array, json_field, json_flag, json_int, json_string, read_field, read_flag, read_int, read_items,
    read_string, texts_view,
};
use crate::net::IpAddress;
use crate::sql::strs;
use crate::types::ov;
use crate::order::{
    dedup_strings, lemma_dedup_runs_contains, lemma_dedup_runs_neighbours, lemma_dedup_runs_sorted, lemma_lex_antisym,
    lex_le, sort_texts,
};
use crate::text::{decimal, decimal_text};

verus! {

/// The first of two values that is there.
pub open spec fn first_some<T>(a: Option<T>, b: Option<T>) -> Option<T> {
    if a is Some {
        a
    } else {
        b
    }
}

pub open spec fn ovs(o: Option<Vec<String>>) -> Option<Seq<Seq<char>>> {
    match o {
        Some(v) => Some(strs(v@)),
        None => None,
    }
}

/// Everything that can be known about an address; each source fills its
/// part. Coordinates are kept as the bits of their `f64` (`f64::to_bits`),
/// times as microseconds since the epoch.
#[derive(Debug, Clone)]
pub struct IpFacts {
    pub geo_country: Option<String>,
    pub geo_city: Option<String>,
    pub geo_lat: Option<u64>,
    pub geo_lon: Option<u64>,
    pub asn_number: Option<i32>,
    pub asn_name: Option<String>,
    pub rdns: Option<String>,
    pub threat_score: Option<i32>,
    pub threat_categories: Option<Vec<String>>,
    pub abuse_total_reports: Option<i32>,
    pub abuse_last_reported: Option<i64>,
    pub abuse_is_tor: Option<bool>,
    pub abuse_usage_type: Option<String>,
}

pub struct FactsView {
    pub geo_country: Option<Seq<char>>,
    pub geo_city: Option<Seq<char>>,
    pub geo_lat: Option<u64>,
    pub geo_lon: Option<u64>,
    pub asn_number: Option<i32>,
    pub asn_name: Option<Seq<char>>,
    pub rdns: Option<Seq<char>>,
    pub threat_score: Option<i32>,
    pub threat_categories: Option<Seq<Seq<char>>>,
    pub abuse_total_reports: Option<i32>,
    pub abuse_last_reported: Option<i64>,
    pub abuse_is_tor: Option<bool>,
    pub abuse_usage_type: Option<Seq<char>>,
}

impl View for IpFacts {
    type V = FactsView;

    open spec fn view(&self) -> FactsView {
        FactsView {
            geo_country: ov(self.geo_country),
            geo_city: ov(self.geo_city),
            geo_lat: self.geo_lat,
            geo_lon: self.geo_lon,
            asn_number: self.asn_number,
            asn_name: ov(self.asn_name),
            rdns: ov(self.rdns),
            threat_score: self.threat_score,
            threat_categories: ovs(self.threat_categories),
            abuse_total_reports: self.abuse_total_reports,
            abuse_last_reported: self.abuse_last_reported,
            abuse_is_tor: self.abuse_is_tor,
            abuse_usage_type: ov(self.abuse_usage_type),
        }
    }
}

/// Facts that say nothing.
pub open spec fn no_facts() -> FactsView {
    FactsView {
        geo_country: None,
        geo_city: None,
        geo_lat: None,
        geo_lon: None,
        asn_number: None,
        asn_name: None,
        rdns: None,
        threat_score: None,
        threat_categories: None,
        abuse_total_reports: None,
        abuse_last_reported: None,
        abuse_is_tor: None,
        abuse_usage_type: None,
    }
}

/// Each field of `a`, and where `a` lacks it, that of `b`.
pub open spec fn merged(a: FactsView, b: FactsView) -> FactsView {
    FactsView {
        geo_country: first_some(a.geo_country, b.geo_country),
        geo_city: first_some(a.geo_city, b.geo_city),
        geo_lat: first_some(a.geo_lat, b.geo_lat),
        geo_lon: first_some(a.geo_lon, b.geo_lon),
        asn_number: first_some(a.asn_number, b.asn_number),
        asn_name: first_some(a.asn_name, b.asn_name),
        rdns: first_some(a.rdns, b.rdns),
        threat_score: first_some(a.threat_score, b.threat_score),
        threat_categories: first_some(a.threat_categories, b.threat_categories),
        abuse_total_reports: first_some(a.abuse_total_reports, b.abuse_total_reports),
        abuse_last_reported: first_some(a.abuse_last_reported, b.abuse_last_reported),
        abuse_is_tor: first_some(a.abuse_is_tor, b.abuse_is_tor),
        abuse_usage_type: first_some(a.abuse_usage_type, b.abuse_usage_type),
    }
}

/// Whether no field is known.
pub open spec fn facts_empty(f: FactsView) -> bool {
    &&& f.geo_country is None
    &&& f.geo_city is None
    &&& f.geo_lat is None
    &&& f.geo_lon is None
    &&& f.asn_number is None
    &&& f.asn_name is None
    &&& f.rdns is None
    &&& f.threat_score is None
    &&& f.threat_categories is None
    &&& f.abuse_total_reports is None
    &&& f.abuse_last_reported is None
    &&& f.abuse_is_tor is None
    &&& f.abuse_usage_type is None
}

/// The threat fields of `b` in place of those of `a`; the rest of `a`.
pub open spec fn with_threat_of(a: FactsView, b: FactsView) -> FactsView {
    FactsView {
        threat_score: b.threat_score,
        threat_categories: b.threat_categories,
        abuse_total_reports: b.abuse_total_reports,
        abuse_last_reported: b.abuse_last_reported,
        abuse_is_tor: b.abuse_is_tor,
        abuse_usage_type: b.abuse_usage_type,
        ..a
    }
}

fn copy_text(o: &Option<String>) -> (r: Option<String>)
    ensures
        ov(r) == ov(*o),
{
    match o {
        Some(s) => Some(s.clone()),
        None => None,
    }
}

fn copy_texts(o: &Option<Vec<String>>) -> (r: Option<Vec<String>>)
    ensures
        ovs(r) == ovs(*o),
{
    match o {
        Some(v) => {
            let mut out: Vec<String> = Vec::new();
            let mut i: usize = 0;
            while i < v.len()
                invariant
                    0 <= i <= v@.len(),
                    strs(out@) == strs(v@).take(i as int),
                decreases v.len() - i,
            {
                let ghost before = out@;
                out.push(v[i].clone());
                assert(strs(out@) =~= strs(before).push(v@[i as int]@));
                i = i + 1;
                assert(strs(out@) =~= strs(v@).take(i as int));
            }
            assert(strs(v@).take(v@.len() as int) =~= strs(v@));
            Some(out)
        },
        None => None,
    }
}

impl IpFacts {
    /// Facts that say nothing.
    pub fn empty() -> (r: IpFacts)
        ensures
            r@ == no_facts(),
    {
        IpFacts {
            geo_country: None,
            geo_city: None,
            geo_lat: None,
            geo_lon: None,
            asn_number: None,
            asn_name: None,
            rdns: None,
            threat_score: None,
            threat_categories: None,
            abuse_total_reports: None,
            abuse_last_reported: None,
            abuse_is_tor: None,
            abuse_usage_type: None,
        }
    }

    /// Whether nothing is known.
    pub fn is_empty(&self) -> (r: bool)
        ensures
            r == facts_empty(self@),
    {
        self.geo_country.is_none() && self.geo_city.is_none() && self.geo_lat.is_none()
            && self.geo_lon.is_none() && self.asn_number.is_none() && self.asn_name.is_none()
            && self.rdns.is_none() && self.threat_score.is_none()
            && self.threat_categories.is_none() && self.abuse_total_reports.is_none()
            && self.abuse_last_reported.is_none() && self.abuse_is_tor.is_none()
            && self.abuse_usage_type.is_none()
    }

    /// Takes from `other` only what is still missing here: the first
    /// source wins.
    pub fn merge(&mut self, other: IpFacts)
        ensures
            final(self)@ == merged(old(self)@, other@),
    {
        if self.geo_country.is_none() {
            self.geo_country = other.geo_country;
        }
        if self.geo_city.is_none() {
            self.geo_city = other.geo_city;
        }
        if self.geo_lat.is_none() {
            self.geo_lat = other.geo_lat;
        }
        if self.geo_lon.is_none() {
            self.geo_lon = other.geo_lon;
        }
        if self.asn_number.is_none() {
            self.asn_number = other.asn_number;
        }
        if self.asn_name.is_none() {
            self.asn_name = other.asn_name;
        }
        if self.rdns.is_none() {
            self.rdns = other.rdns;
        }
        if self.threat_score.is_none() {
            self.threat_score = other.threat_score;
        }
        if self.threat_categories.is_none() {
            self.threat_categories = other.threat_categories;
        }
        if self.abuse_total_reports.is_none() {
            self.abuse_total_reports = other.abuse_total_reports;
        }
        if self.abuse_last_reported.is_none() {
            self.abuse_last_reported = other.abuse_last_reported;
        }
        if self.abuse_is_tor.is_none() {
            self.abuse_is_tor = other.abuse_is_tor;
        }
        if self.abuse_usage_type.is_none() {
            self.abuse_usage_type = other.abuse_usage_type;
        }
    }

    /// The same facts, once more.
    pub fn copied(&self) -> (r: IpFacts)
        ensures
            r@ == self@,
    {
        IpFacts {
            geo_country: copy_text(&self.geo_country),
            geo_city: copy_text(&self.geo_city),
            geo_lat: self.geo_lat,
            geo_lon: self.geo_lon,
            asn_number: self.asn_number,
            asn_name: copy_text(&self.asn_name),
            rdns: copy_text(&self.rdns),
            threat_score: self.threat_score,
            threat_categories: copy_texts(&self.threat_categories),
            abuse_total_reports: self.abuse_total_reports,
            abuse_last_reported: self.abuse_last_reported,
            abuse_is_tor: self.abuse_is_tor,
            abuse_usage_type: copy_text(&self.abuse_usage_type),
        }
    }

    /// Replaces the threat fields by those of `other`: a refreshed score
    /// replaces the old one rather than filling a gap.
    pub fn replace_threat(&mut self, other: IpFacts)
        ensures
            final(self)@ == with_threat_of(old(self)@, other@),
    {
        self.threat_score = other.threat_score;
        self.threat_categories = other.threat_categories;
        self.abuse_total_reports = other.abuse_total_reports;
        self.abuse_last_reported = other.abuse_last_reported;
        self.abuse_is_tor = other.abuse_is_tor;
        self.abuse_usage_type = other.abuse_usage_type;
    }
}

impl Default for IpFacts {
    fn default() -> (r: IpFacts)
        ensures
            r@ == no_facts(),
    {
        IpFacts::empty()
    }
}

/// Merging keeps what is known and fills only gaps: a field known before
/// is known after, unchanged; an unknown one takes the other's value.
pub proof fn lemma_merge_keeps_known(a: FactsView, b: FactsView)
    ensures
        a.geo_country is Some ==> merged(a, b).geo_country == a.geo_country,
        a.rdns is Some ==> merged(a, b).rdns == a.rdns,
        a.threat_score is Some ==> merged(a, b).threat_score == a.threat_score,
        a.geo_country is None ==> merged(a, b).geo_country == b.geo_country,
        a.rdns is None ==> merged(a, b).rdns == b.rdns,
        a.threat_score is None ==> merged(a, b).threat_score == b.threat_score,
        merged(a, no_facts()) == a,
        merged(no_facts(), b) == b,
        merged(a, a) == a,
{
}

/// Merging is associative: facts gathered source by source are the same
/// however the sources are grouped.
pub proof fn lemma_merge_associative(a: FactsView, b: FactsView, c: FactsView)
    ensures
        merged(merged(a, b), c) == merged(a, merged(b, c)),
{
}

/// Merged facts are empty only where both were.
pub proof fn lemma_merge_empty(a: FactsView, b: FactsView)
    ensures
        facts_empty(merged(a, b)) == (facts_empty(a) && facts_empty(b)),
{
}

/// The result of a threat lookup. Running out of quota is no error but the
/// order to look at the row again later.
#[derive(Debug, Clone)]
pub enum ThreatOutcome {
    Found(IpFacts),
    NotFound,
    QuotaExhausted,
    Disabled,
}

/// The source that never finds anything, for running without an API key.
#[derive(Debug, Clone, Copy)]
pub struct NoThreatSource;

impl NoThreatSource {
    pub fn lookup(&self, ip: IpAddress) -> (r: ThreatOutcome)
        ensures
            r is Disabled,
    {
        ThreatOutcome::Disabled
    }
}

/// What is left of a daily quota. It describes the source, not a single
/// lookup: the interface shows it without asking itself.
#[derive(Debug, Clone, Copy, PartialEq, Eq, Structural)]
pub struct Quota {
    pub remaining: i64,
    /// The quota `remaining` is left of; -1 = unknown.
    pub limit: i64,
    /// Unix seconds at which the quota is full again; 0 = unknown.
    pub reset_at: i64,
    /// Unix seconds until which lookups pause after a 429; 0 = no pause.
    pub paused_until: i64,
}

/// A value that stands for "unknown" reported as absent rather than as a
/// number.
pub fn known_or_none(n: i64, unknown: i64) -> (r: Option<i64>)
    ensures
        r == (if n != unknown {
            Some(n)
        } else {
            None
        }),
{
    if n != unknown {
        Some(n)
    } else {
        None
    }
}

// ---------------------------------------------------------------------------
// The daily supply of refreshes
// ---------------------------------------------------------------------------

/// How many refreshes a day at most, where no setting says otherwise.
pub const DEFAULT_REFRESH_PER_DAY: u32 = 200;

/// How old a score may grow before it is asked again, in days.
pub const REFRESH_AFTER_DAYS: i64 = 14;

/// The daily supply of refreshes of old threat scores. It counts in days
/// since the epoch, not hours since the start: else every restart would
/// move the day and bring a full supply again.
#[derive(Debug, Clone, Copy, PartialEq, Eq, Structural)]
pub struct RefreshBudget {
    pub day: i64,
    pub used: u32,
    pub per_day: u32,
}

/// What is used of the budget on `today`: nothing on a new day.
pub open spec fn used_on(b: RefreshBudget, today: i64) -> u32 {
    if b.day != today {
        0
    } else {
        b.used
    }
}

impl RefreshBudget {
    /// An unused budget of the default size.
    pub fn new() -> (r: RefreshBudget)
        ensures
            r == (RefreshBudget { day: 0, used: 0, per_day: DEFAULT_REFRESH_PER_DAY }),
    {
        RefreshBudget { day: 0, used: 0, per_day: DEFAULT_REFRESH_PER_DAY }
    }

    /// Sets the refreshes allowed per day; 0 switches refreshing off.
    pub fn set_per_day(&mut self, n: u32)
        ensures
            *final(self) == (RefreshBudget { per_day: n, ..*old(self) }),
    {
        self.per_day = n;
    }

    /// Takes one refresh on day `today` (days since the epoch), or refuses
    /// where the day's supply is used up.
    pub fn take_on(&mut self, today: i64) -> (r: bool)
        ensures
            r == (used_on(*old(self), today) < old(self).per_day),
            final(self).day == today,
            final(self).per_day == old(self).per_day,
            final(self).used == if r {
                (used_on(*old(self), today) + 1) as u32
            } else {
                used_on(*old(self), today)
            },
    {
        if self.day != today {
            self.day = today;
            self.used = 0;
        }
        let limit = self.per_day;
        if limit == 0 {
            return false;
        }
        let used = self.used;
        if used >= limit {
            return false;
        }
        self.used = used + 1;
        true
    }

    /// Takes one refresh today, by the clock.
    pub fn take(&mut self) -> (r: bool)
        ensures
            final(self).per_day == old(self).per_day,
            r == (used_on(*old(self), final(self).day) < old(self).per_day),
            final(self).used == if r {
                (used_on(*old(self), final(self).day) + 1) as u32
            } else {
                used_on(*old(self), final(self).day)
            },
    {
        let today = day_of(crate::clock::now_seconds());
        self.take_on(today)
    }
}

/// The day (since the epoch) a Unix second falls on.
pub fn day_of(secs: i64) -> (r: i64)
    ensures
        r == secs as int / 86400,
{
    if secs >= 0 {
        secs / 86400
    } else {
        let m: i64 = -(secs + 1);
        let q = m / 86400;
        assert(-q - 1 == secs as int / 86400) by (nonlinear_arith)
            requires
                m == -(secs + 1),
                m >= 0,
                q == m / 86400,
                secs < 0,
        ;
        -q - 1
    }
}

impl Default for RefreshBudget {
    fn default() -> (r: RefreshBudget)
        ensures
            r == (RefreshBudget { day: 0, used: 0, per_day: DEFAULT_REFRESH_PER_DAY }),
    {
        RefreshBudget::new()
    }
}

/// A day's supply is never exceeded: after any take, the refreshes used
/// on that day are at most the supply (or the take was refused).
pub proof fn lemma_budget_never_exceeded(b: RefreshBudget, today: i64, r: bool, after: RefreshBudget)
    requires
        r == (used_on(b, today) < b.per_day),
        after.day == today,
        after.per_day == b.per_day,
        after.used == if r {
            (used_on(b, today) + 1) as u32
        } else {
            used_on(b, today)
        },
        used_on(b, today) <= b.per_day,
    ensures
        after.used <= after.per_day,
        r ==> after.used == used_on(b, today) + 1,
{
}

/// The supply per day from the setting: a whole number 0..=100000, else
/// the default.
pub open spec fn per_day_of(v: Option<i64>) -> u32 {
    match v {
        Some(n) if 0 <= n <= 100_000 => n as u32,
        _ => DEFAULT_REFRESH_PER_DAY,
    }
}

/// The supply per day from the setting.
pub fn per_day_setting(v: Option<i64>) -> (r: u32)
    ensures
        r == per_day_of(v),
{
    match v {
        Some(n) if 0 <= n && n <= 100_000 => n as u32,
        _ => DEFAULT_REFRESH_PER_DAY,
    }
}

// ---------------------------------------------------------------------------
// The worker's decisions
// ---------------------------------------------------------------------------

/// A threat score only for blocked firewall rows: the free quota is small,
/// and allowed traffic needs no score.
pub open spec fn wants_threat_of(log_type_id: i16, rule_action_id: Option<i16>) -> bool {
    log_type_id == 1 && rule_action_id == Some(2i16)
}

/// Whether a claimed row asks for a threat score.
pub fn wants_threat(log_type_id: i16, rule_action_id: Option<i16>) -> (r: bool)
    ensures
        r == wants_threat_of(log_type_id, rule_action_id),
{
    log_type_id == 1 && rule_action_id == Some(2)
}

/// A score is old when it exists and was never checked or checked before
/// the cutoff; a row without a score is asked anyway.
pub open spec fn stale_of(score: Option<i32>, checked: Option<i64>, cutoff: i64) -> bool {
    score is Some && match checked {
        None => true,
        Some(t) => t < cutoff,
    }
}

/// Whether a cached score is old enough to refresh.
pub fn is_stale(score: Option<i32>, checked: Option<i64>, cutoff: i64) -> (r: bool)
    ensures
        r == stale_of(score, checked, cutoff),
{
    score.is_some() && match checked {
        None => true,
        Some(t) => t < cutoff,
    }
}

/// The location source is asked where neither country nor AS is known.
pub fn needs_geo(f: &IpFacts) -> (r: bool)
    ensures
        r == (f@.geo_country is None && f@.asn_number is None),
{
    f.geo_country.is_none() && f.asn_number.is_none()
}

/// Reverse DNS is asked where no name is known and it is switched on.
pub fn needs_rdns(f: &IpFacts, enabled: bool) -> (r: bool)
    ensures
        r == (f@.rdns is None && enabled),
{
    f.rdns.is_none() && enabled
}

/// A refresh is considered only where the address shows up anyway, wants
/// a score, has one, and that one is old; the budget is asked last, since
/// asking it uses it up.
pub fn refresh_candidate(wants: bool, f: &IpFacts, stale: bool) -> (r: bool)
    ensures
        r == (wants && f@.threat_score is Some && stale),
{
    wants && f.threat_score.is_some() && stale
}

/// The threat source is asked where a score is wanted and either missing
/// or due for a refresh.
pub fn asks_threat(wants: bool, f: &IpFacts, refreshing: bool) -> (r: bool)
    ensures
        r == (wants && (f@.threat_score is None || refreshing)),
{
    wants && (f.threat_score.is_none() || refreshing)
}

/// What follows from a threat lookup beyond the facts.
#[derive(Debug, Clone, Copy, PartialEq, Eq, Structural)]
pub enum ThreatStep {
    /// Nothing more.
    Done,
    /// The quota ran out: rows that wanted this score stay queued.
    QuotaRanOut,
    /// A refresh found nothing: record that it was asked, so that the
    /// address does not use up the supply again.
    TouchChecked,
}

/// Applies a threat lookup to the known facts: a refresh replaces the
/// threat fields, a first score fills gaps.
pub fn apply_threat(known: &mut IpFacts, outcome: ThreatOutcome, refreshing: bool) -> (r: ThreatStep)
    ensures
        match outcome {
            ThreatOutcome::Found(t) => r == ThreatStep::Done && final(known)@ == if refreshing {
                with_threat_of(old(known)@, t@)
            } else {
                merged(old(known)@, t@)
            },
            ThreatOutcome::QuotaExhausted => r == ThreatStep::QuotaRanOut && final(known)@ == old(
                known,
            )@,
            _ => final(known)@ == old(known)@ && r == if refreshing {
                ThreatStep::TouchChecked
            } else {
                ThreatStep::Done
            },
        },
{
    match outcome {
        ThreatOutcome::Found(t) => {
            if refreshing {
                known.replace_threat(t);
            } else {
                known.merge(t);
            }
            ThreatStep::Done
        },
        ThreatOutcome::QuotaExhausted => ThreatStep::QuotaRanOut,
        _ => if refreshing {
            ThreatStep::TouchChecked
        } else {
            ThreatStep::Done
        },
    }
}

/// A row stays in the queue (status 0) only where the quota ran out, it
/// wanted a score, its address was among those asked, and no score came;
/// every other row is done (status 1).
pub open spec fn status_after(
    quota_ran_out: bool,
    row_wants: bool,
    address_wanted: bool,
    score: Option<i32>,
) -> i16 {
    if quota_ran_out && row_wants && address_wanted && score is None {
        0
    } else {
        1
    }
}

/// An address added to a list where it is not in it yet.
pub open spec fn once(v: Seq<IpAddress>, a: IpAddress) -> Seq<IpAddress> {
    if v.contains(a) {
        v
    } else {
        v.push(a)
    }
}

/// The remote addresses of claimed rows (each with whether the row wants a
/// threat score), each once, in the order they first occur; with
/// `only_wanted`, those of rows that want a score.
pub open spec fn distinct_remotes(c: Seq<(Option<IpAddress>, bool)>, only_wanted: bool) -> Seq<IpAddress>
    decreases c.len(),
{
    if c.len() == 0 {
        Seq::empty()
    } else {
        let before = distinct_remotes(c.drop_last(), only_wanted);
        match c.last().0 {
            Some(a) => if !only_wanted || c.last().1 {
                once(before, a)
            } else {
                before
            },
            None => before,
        }
    }
}

/// Whether some claimed row has this remote address (and, with
/// `only_wanted`, wants a score).
pub open spec fn claimed(c: Seq<(Option<IpAddress>, bool)>, only_wanted: bool, a: IpAddress) -> bool {
    exists|i: int| 0 <= i < c.len() && c[i].0 == Some(a) && (!only_wanted || c[i].1)
}

proof fn lemma_distinct_remotes(c: Seq<(Option<IpAddress>, bool)>, only_wanted: bool)
    ensures
        distinct_remotes(c, only_wanted).no_duplicates(),
        forall|a: IpAddress| distinct_remotes(c, only_wanted).contains(a) <==> claimed(c, only_wanted, a),
    decreases c.len(),
{
    if c.len() > 0 {
        let d = c.drop_last();
        lemma_distinct_remotes(d, only_wanted);
        let b = distinct_remotes(d, only_wanted);
        let n = c.len() - 1;
        assert(c[n] == c.last());
        match c.last().0 {
            Some(x) => {
                assert forall|a: IpAddress| #[trigger] b.push(x).contains(a) <==> (b.contains(a) || a == x) by {
                    if b.push(x).contains(a) {
                        let k = choose|k: int| 0 <= k < b.push(x).len() && b.push(x)[k] == a;
                        if k < b.len() {
                            assert(b[k] == a);
                        }
                    }
                    if b.contains(a) {
                        let k = choose|k: int| 0 <= k < b.len() && b[k] == a;
                        assert(b.push(x)[k] == a);
                    }
                    if a == x {
                        assert(b.push(x)[b.len() as int] == a);
                    }
                }
            },
            None => {},
        }
        assert forall|a: IpAddress| distinct_remotes(c, only_wanted).contains(a) <==> claimed(c, only_wanted, a) by {
            if claimed(d, only_wanted, a) {
                let i = choose|i: int| 0 <= i < d.len() && d[i].0 == Some(a) && (!only_wanted || d[i].1);
                assert(c[i] == d[i]);
            }
            if claimed(c, only_wanted, a) {
                let i = choose|i: int| 0 <= i < c.len() && c[i].0 == Some(a) && (!only_wanted || c[i].1);
                if i < c.len() - 1 {
                    assert(d[i] == c[i]);
                }
            }
        }
    }
}

/// The addresses a pass looks up, and those among them that want a threat
/// score: each remote address of the claimed rows once, so that each is
/// looked up once, in the order the rows claim them.
pub fn claimed_addresses(c: &[(Option<IpAddress>, bool)]) -> (r: (Vec<IpAddress>, Vec<IpAddress>))
    ensures
        r.0@ == distinct_remotes(c@, false),
        r.1@ == distinct_remotes(c@, true),
        r.0@.no_duplicates(),
        r.1@.no_duplicates(),
        forall|a: IpAddress| r.0@.contains(a) <==> claimed(c@, false, a),
        forall|a: IpAddress| r.1@.contains(a) <==> claimed(c@, true, a),
{
    let mut all: Vec<IpAddress> = Vec::new();
    let mut wanted: Vec<IpAddress> = Vec::new();
    let mut i: usize = 0;
    while i < c.len()
        invariant
            0 <= i <= c@.len(),
            all@ == distinct_remotes(c@.take(i as int), false),
            wanted@ == distinct_remotes(c@.take(i as int), true),
        decreases c.len() - i,
    {
        assert(c@.take(i + 1).drop_last() =~= c@.take(i as int));
        assert(c@.take(i + 1).last() == c@[i as int]);
        crate::writer::add_once(&mut all, c[i].0);
        if c[i].1 {
            crate::writer::add_once(&mut wanted, c[i].0);
        }
        i = i + 1;
    }
    assert(c@.take(c@.len() as int) =~= c@);
    proof {
        lemma_distinct_remotes(c@, false);
        lemma_distinct_remotes(c@, true);
    }
    (all, wanted)
}

/// The status a claimed row is written back with.
pub fn row_status(quota_ran_out: bool, row_wants: bool, address_wanted: bool, f: &IpFacts) -> (r:
    i16)
    ensures
        r == status_after(quota_ran_out, row_wants, address_wanted, f@.threat_score),
{
    if quota_ran_out && row_wants && address_wanted && f.threat_score.is_none() {
        0
    } else {
        1
    }
}

// ---------------------------------------------------------------------------
// The threat source's quota
// ---------------------------------------------------------------------------

/// The last second a timestamp can hold.
pub const LAST_SECOND: i64 = 8_210_266_876_799;

/// The next midnight, UTC, after `now` (Unix seconds): when the daily
/// quota is filled up again.
pub fn next_utc_midnight(now: i64) -> (r: i64)
    requires
        now <= LAST_SECOND - 86400,
    ensures
        r == (now as int / 86400 + 1) * 86400,
{
    let d = day_of(now);
    assert((d + 1) * 86400 <= now + 86400) by (nonlinear_arith)
        requires
            d == now as int / 86400,
    ;
    assert((d + 1) * 86400 > now) by (nonlinear_arith)
        requires
            d == now as int / 86400,
    ;
    (d + 1) * 86400
}

/// The quota of the threat source as its answers reported it.
#[derive(Debug, Clone, Copy, PartialEq, Eq, Structural)]
pub struct AbuseQuota {
    /// Left of the quota by the last answer; -1 = unknown.
    pub remaining: i64,
    /// The daily quota in all; -1 = unknown.
    pub limit: i64,
    /// Unix seconds at which the quota is full again; 0 = unknown.
    pub reset_at: i64,
    /// Unix seconds until which lookups pause after a 429.
    pub paused_until: i64,
}

/// Whether a lookup is made at all.
#[derive(Debug, Clone, Copy, PartialEq, Eq, Structural)]
pub enum Gate {
    /// No key: the source is off.
    Disabled,
    /// The quota is used up or a pause is running: do not ask.
    Exhausted,
    Ask,
}

/// What the rate-limit headers of an answer say, where they hold numbers.
#[derive(Debug, Clone, Copy, PartialEq, Eq, Structural)]
pub struct RateHeaders {
    pub remaining: Option<i64>,
    pub limit: Option<i64>,
    pub reset: Option<i64>,
    /// `Retry-After`, in seconds.
    pub retry_after: Option<i64>,
}

/// After the reset the quota is unknown again — not zero: otherwise a zero
/// would stand for ever, since only an answer could renew it. The later of
/// reset and pause counts; an unknown reset leaves the pause alone.
pub open spec fn cleared(q: AbuseQuota, now: i64) -> AbuseQuota {
    let until = if q.reset_at >= q.paused_until {
        q.reset_at
    } else {
        q.paused_until
    };
    if until != 0 && until <= now {
        AbuseQuota { remaining: -1i64, reset_at: 0i64, paused_until: 0i64, ..q }
    } else {
        q
    }
}

/// The quota after an answer's headers: each number given replaces the
/// old one; an empty quota without a reset gets the next midnight, since
/// the quota is a daily one.
pub open spec fn with_headers(q: AbuseQuota, h: RateHeaders, midnight: i64) -> AbuseQuota {
    let r = AbuseQuota {
        remaining: match h.remaining {
            Some(n) => n,
            None => q.remaining,
        },
        limit: match h.limit {
            Some(n) => n,
            None => q.limit,
        },
        reset_at: match h.reset {
            Some(n) => n,
            None => q.reset_at,
        },
        ..q
    };
    if r.remaining == 0 && r.reset_at == 0 {
        AbuseQuota { reset_at: midnight, ..r }
    } else {
        r
    }
}

/// Where a 429 pauses until: the reset time first, since it names the
/// refill of the daily quota; else now plus `Retry-After`; else an hour.
pub open spec fn pause_until(h: RateHeaders, now: i64) -> i64 {
    match h.reset {
        Some(n) => n,
        None => match h.retry_after {
            Some(s) => now.wrapping_add(s),
            None => now.wrapping_add(3600),
        },
    }
}

/// What `gate` answers for a quota at `now`.
pub open spec fn gate_of(q: AbuseQuota, enabled: bool, now: i64) -> Gate {
    if !enabled {
        Gate::Disabled
    } else {
        let c = cleared(q, now);
        if c.paused_until > now || c.remaining == 0 {
            Gate::Exhausted
        } else {
            Gate::Ask
        }
    }
}

/// The next midnight, UTC, after `now`.
pub open spec fn midnight_after(now: i64) -> i64 {
    ((now as int / 86400 + 1) * 86400) as i64
}

/// The quota after an answer with this status and these headers at `now`:
/// the headers taken in, and on a 429 a pause until `pause_until`.
pub open spec fn answered(q: AbuseQuota, status: u16, h: RateHeaders, now: i64) -> AbuseQuota {
    let w = with_headers(q, h, midnight_after(now));
    if status == 429 {
        AbuseQuota { reset_at: pause_until(h, now), paused_until: pause_until(h, now), ..w }
    } else {
        w
    }
}

/// A 429 pauses all further lookups: until the instant it names, every
/// gate says the quota is exhausted — so no request is sent — and leaves
/// the quota as it is.
pub proof fn lemma_429_pauses_lookups(q: AbuseQuota, h: RateHeaders, now: i64, later: i64)
    requires
        later < pause_until(h, now),
    ensures
        gate_of(answered(q, 429, h, now), true, later) == Gate::Exhausted,
        cleared(answered(q, 429, h, now), later) == answered(q, 429, h, now),
{
}

/// Without a key nothing is asked.
pub proof fn lemma_no_key_no_lookup(q: AbuseQuota, now: i64)
    ensures
        gate_of(q, false, now) == Gate::Disabled,
{
}

/// An empty quota asks nothing before its reset; once the reset (and any
/// pause) has passed, the quota is unknown again and a lookup is made.
pub proof fn lemma_empty_quota_waits_for_its_reset(q: AbuseQuota, now: i64)
    requires
        0 <= now,
    ensures
        q.remaining == 0 && now < q.reset_at ==> gate_of(q, true, now) == Gate::Exhausted && cleared(q, now)
            == q,
        ({
            let until = if q.reset_at >= q.paused_until {
                q.reset_at
            } else {
                q.paused_until
            };
            until != 0 && until <= now ==> cleared(q, now).remaining == -1 && gate_of(q, true, now) == Gate::Ask
        }),
{
}

/// An answer that leaves the quota empty without naming its reset sets
/// the reset to the next midnight, UTC, which is still ahead.
pub proof fn lemma_empty_answer_resets_at_midnight(q: AbuseQuota, status: u16, h: RateHeaders, now: i64)
    requires
        0 <= now <= LAST_SECOND - 86400,
        status != 429,
        h.remaining == Some(0i64),
        h.reset is None,
        q.reset_at == 0,
    ensures
        answered(q, status, h, now).reset_at == midnight_after(now),
        now < midnight_after(now),
{
    assert(now < (now as int / 86400 + 1) * 86400);
}

/// Until when a quota holds back lookups: the later of its reset and its
/// pause (0 = no such instant).
pub open spec fn quota_until(q: AbuseQuota) -> i64 {
    if q.reset_at >= q.paused_until {
        q.reset_at
    } else {
        q.paused_until
    }
}

/// Lookups at these instants, one after the other, from quota `q`, with a
/// key: what each gate answers, and the quota left. A gate that answers
/// `Exhausted` sends nothing, so no answer comes in between.
pub open spec fn gates_at(q: AbuseQuota, times: Seq<i64>) -> (Seq<Gate>, AbuseQuota)
    decreases times.len(),
{
    if times.len() == 0 {
        (Seq::empty(), q)
    } else {
        let (gs, q1) = gates_at(q, times.drop_last());
        (gs.push(gate_of(q1, true, times.last())), cleared(q1, times.last()))
    }
}

/// Lookups before the quota's instant, while it is empty or paused, all
/// answer `Exhausted` — none sends a request — and leave it as it is.
pub proof fn lemma_held_back_until(q: AbuseQuota, times: Seq<i64>)
    requires
        forall|i: int|
            0 <= i < times.len() ==> #[trigger] times[i] < quota_until(q) && (q.remaining == 0 || q.paused_until
                > times[i]),
    ensures
        gates_at(q, times).1 == q,
        gates_at(q, times).0.len() == times.len(),
        forall|i: int| 0 <= i < times.len() ==> #[trigger] gates_at(q, times).0[i] == Gate::Exhausted,
    decreases times.len(),
{
    if times.len() > 0 {
        let d = times.drop_last();
        assert forall|i: int| 0 <= i < d.len() implies #[trigger] d[i] < quota_until(q) && (q.remaining == 0
            || q.paused_until > d[i]) by {
            assert(d[i] == times[i]);
        }
        lemma_held_back_until(q, d);
        let t = times.last();
        assert(t == times[times.len() - 1]);
        assert forall|i: int| 0 <= i < times.len() implies #[trigger] gates_at(q, times).0[i] == Gate::Exhausted by {
            if i < d.len() {
                assert(gates_at(q, times).0[i] == gates_at(q, d).0[i]);
            }
        }
    }
}

/// A 429 pauses every later lookup: all lookups before the instant it
/// names answer `Exhausted`, send nothing, and leave the quota as the 429
/// left it.
pub proof fn lemma_429_holds_every_later_lookup(q: AbuseQuota, h: RateHeaders, now: i64, times: Seq<i64>)
    requires
        forall|i: int| 0 <= i < times.len() ==> #[trigger] times[i] < pause_until(h, now),
    ensures
        gates_at(answered(q, 429, h, now), times).1 == answered(q, 429, h, now),
        forall|i: int| 0 <= i < times.len() ==> #[trigger] gates_at(answered(q, 429, h, now), times).0[i]
            == Gate::Exhausted,
{
    let s = answered(q, 429, h, now);
    assert forall|i: int| 0 <= i < times.len() implies #[trigger] times[i] < quota_until(s) && (s.remaining == 0
        || s.paused_until > times[i]) by {}
    lemma_held_back_until(s, times);
}

/// From the quota's instant on, a lookup goes through (`Ask`): the quota
/// is unknown once more.
pub proof fn lemma_lookups_resume_after_the_reset(q: AbuseQuota, t: i64)
    requires
        quota_until(q) != 0,
        quota_until(q) <= t,
        0 <= t,
    ensures
        gate_of(q, true, t) == Gate::Ask,
        cleared(q, t).remaining == -1,
{
}

/// An answer that leaves the quota empty holds back every lookup until its
/// reset — the one it names, else the next midnight, UTC — and from then
/// on lookups go through.
pub proof fn lemma_run_out_then_resume(
    q: AbuseQuota,
    status: u16,
    h: RateHeaders,
    now: i64,
    times: Seq<i64>,
    t: i64,
)
    requires
        0 <= now <= LAST_SECOND - 86400,
        status != 429,
        h.remaining == Some(0i64),
        forall|i: int| 0 <= i < times.len() ==> #[trigger] times[i] < quota_until(answered(q, status, h, now)),
        0 < quota_until(answered(q, status, h, now)) <= t,
    ensures
        forall|i: int| 0 <= i < times.len() ==> #[trigger] gates_at(answered(q, status, h, now), times).0[i]
            == Gate::Exhausted,
        gates_at(answered(q, status, h, now), times).1 == answered(q, status, h, now),
        gate_of(gates_at(answered(q, status, h, now), times).1, true, t) == Gate::Ask,
        answered(q, status, h, now).reset_at == match h.reset {
            Some(r) => if r == 0 {
                midnight_after(now)
            } else {
                r
            },
            None => if q.reset_at == 0 {
                midnight_after(now)
            } else {
                q.reset_at
            },
        },
{
    let s = answered(q, status, h, now);
    assert(now < (now as int / 86400 + 1) * 86400);
    assert forall|i: int| 0 <= i < times.len() implies #[trigger] times[i] < quota_until(s) && (s.remaining == 0
        || s.paused_until > times[i]) by {}
    lemma_held_back_until(s, times);
    lemma_lookups_resume_after_the_reset(s, t);
}

impl AbuseQuota {
    /// Nothing known yet.
    pub fn new() -> (r: AbuseQuota)
        ensures
            r == (AbuseQuota { remaining: -1i64, limit: -1i64, reset_at: 0i64, paused_until: 0i64 }),
    {
        AbuseQuota { remaining: -1, limit: -1, reset_at: 0, paused_until: 0 }
    }

    /// The quota as reported; `None` before any answer or without a key.
    pub fn quota(&self, enabled: bool) -> (r: Option<Quota>)
        ensures
            r == (if !enabled || self.remaining < 0 {
                None
            } else {
                Some(
                    Quota {
                        remaining: self.remaining,
                        limit: self.limit,
                        reset_at: self.reset_at,
                        paused_until: self.paused_until,
                    },
                )
            }),
    {
        if !enabled || self.remaining < 0 {
            return None;
        }
        Some(
            Quota {
                remaining: self.remaining,
                limit: self.limit,
                reset_at: self.reset_at,
                paused_until: self.paused_until,
            },
        )
    }

    /// Forgets a quota whose window has passed.
    pub fn clear_after_reset(&mut self, now: i64)
        ensures
            *final(self) == cleared(*old(self), now),
    {
        let until = if self.reset_at >= self.paused_until {
            self.reset_at
        } else {
            self.paused_until
        };
        if until != 0 && until <= now {
            self.remaining = -1;
            self.reset_at = 0;
            self.paused_until = 0;
        }
    }

    /// Whether to ask at `now`: not without a key; not while the quota is
    /// used up or a pause runs.
    pub fn gate(&mut self, enabled: bool, now: i64) -> (r: Gate)
        ensures
            !enabled ==> r == Gate::Disabled && *final(self) == *old(self),
            enabled ==> *final(self) == cleared(*old(self), now) && r == if final(self).paused_until
                > now || final(self).remaining == 0 {
                Gate::Exhausted
            } else {
                Gate::Ask
            },
            r == gate_of(*old(self), enabled, now),
    {
        if !enabled {
            return Gate::Disabled;
        }
        self.clear_after_reset(now);
        if self.paused_until > now || self.remaining == 0 {
            Gate::Exhausted
        } else {
            Gate::Ask
        }
    }

    /// Takes in an answer with the given status and headers, at `now`.
    /// `Some` where the answer settles the lookup: out of quota on a 429,
    /// nothing found on another failure; `None` where its body is to be
    /// read.
    pub fn after_response(&mut self, status: u16, h: RateHeaders, now: i64) -> (r: Option<
        ThreatOutcome,
    >)
        requires
            now <= LAST_SECOND - 86400,
        ensures
            *final(self) == answered(*old(self), status, h, now),
            ({
                let q = with_headers(*old(self), h, ((now as int / 86400 + 1) * 86400) as i64);
                if status == 429 {
                    &&& r matches Some(ThreatOutcome::QuotaExhausted)
                    &&& *final(self) == AbuseQuota {
                        reset_at: pause_until(h, now),
                        paused_until: pause_until(h, now),
                        ..q
                    }
                } else {
                    &&& *final(self) == q
                    &&& if 200 <= status <= 299 {
                        r is None
                    } else {
                        r matches Some(ThreatOutcome::NotFound)
                    }
                }
            }),
    {
        if let Some(n) = h.remaining {
            self.remaining = n;
        }
        if let Some(n) = h.limit {
            self.limit = n;
        }
        if let Some(n) = h.reset {
            self.reset_at = n;
        }
        if self.remaining == 0 && self.reset_at == 0 {
            self.reset_at = next_utc_midnight(now);
        }
        if status == 429 {
            let reset = match h.reset {
                Some(n) => n,
                None => match h.retry_after {
                    Some(s) => now.wrapping_add(s),
                    None => now.wrapping_add(3600),
                },
            };
            self.reset_at = reset;
            self.paused_until = reset;
            return Some(ThreatOutcome::QuotaExhausted);
        }
        if status < 200 || status > 299 {
            return Some(ThreatOutcome::NotFound);
        }
        None
    }
}

/// The threat source: an API key (empty = off), where to ask, and the
/// quota as its answers reported it.
#[derive(Debug, Clone)]
pub struct AbuseIpDb {
    pub api_key: String,
    pub url: String,
    pub quota: AbuseQuota,
}

impl AbuseIpDb {
    /// The source at its public address.
    pub fn new(api_key: String) -> (r: AbuseIpDb)
        ensures
            r.api_key@ == api_key@,
            r.url@ == "https://api.abuseipdb.com/api/v2/check"@,
            r.quota == (AbuseQuota { remaining: -1i64, limit: -1i64, reset_at: 0i64, paused_until: 0i64 }),
    {
        AbuseIpDb::with_url(api_key, "https://api.abuseipdb.com/api/v2/check".to_string())
    }

    /// The source at another address.
    pub fn with_url(api_key: String, url: String) -> (r: AbuseIpDb)
        ensures
            r.api_key@ == api_key@,
            r.url@ == url@,
            r.quota == (AbuseQuota { remaining: -1i64, limit: -1i64, reset_at: 0i64, paused_until: 0i64 }),
    {
        AbuseIpDb { api_key, url, quota: AbuseQuota::new() }
    }

    /// Whether a key is set.
    pub fn enabled(&self) -> (r: bool)
        ensures
            r == (self.api_key@.len() > 0),
    {
        crate::text::chars_of(self.api_key.as_str()).len() > 0
    }
}

// ---------------------------------------------------------------------------
// Reading an answer
// ---------------------------------------------------------------------------

/// The parts of an answer's `data` object that are kept.
#[derive(Debug, Clone)]
pub struct AbuseData {
    pub score: Option<i64>,
    /// The categories of all reports, in the order they came.
    pub categories: Vec<i64>,
    pub total_reports: Option<i64>,
    pub is_tor: Option<bool>,
    pub usage_type: Option<String>,
    /// The instant of the last report, as the answer writes it (RFC 3339).
    pub last_reported: Option<String>,
}

pub struct AbuseView {
    pub score: Option<i64>,
    pub categories: Seq<i64>,
    pub total_reports: Option<i64>,
    pub is_tor: Option<bool>,
    pub usage_type: Option<Seq<char>>,
    pub last_reported: Option<Seq<char>>,
}

impl View for AbuseData {
    type V = AbuseView;

    open spec fn view(&self) -> AbuseView {
        AbuseView {
            score: self.score,
            categories: self.categories@,
            total_reports: self.total_reports,
            is_tor: self.is_tor,
            usage_type: ov(self.usage_type),
            last_reported: ov(self.last_reported),
        }
    }
}

/// chrono's RFC 3339 parse of a text, in microseconds since the epoch (UTC).
pub uninterp spec fn rfc3339_micros(s: Seq<char>) -> Option<int>;

/// `DateTime::parse_from_rfc3339`, then `with_timezone(&Utc)` and
/// `timestamp_micros` (chrono); the result is named.
#[verifier::external_body]
fn parse_rfc3339_micros(s: &str) -> (r: Option<i64>)
    ensures
        r matches Some(v) ==> rfc3339_micros(s@) == Some(v as int),
        r is None ==> rfc3339_micros(s@) is None,
{
    chrono::DateTime::parse_from_rfc3339(s).ok().map(|d| d.with_timezone(&chrono::Utc).timestamp_micros())
}

/// The instant of the last report, where its text reads as RFC 3339.
pub open spec fn last_reported_of(t: Option<Seq<char>>) -> Option<i64> {
    match t {
        Some(s) => match rfc3339_micros(s) {
            Some(v) => Some(v as i64),
            None => None,
        },
        None => None,
    }
}

/// What a lookup found: the score, the reports, whether the address is a
/// Tor exit, its use, and the set of categories of all reports, as texts,
/// sorted and each once. Numbers are cut to 32 bits as `as i32` does.
pub open spec fn threat_facts(d: AbuseView, cats: Seq<Seq<char>>) -> FactsView {
    FactsView {
        threat_score: match d.score {
            Some(n) => Some(n as i32),
            None => None,
        },
        threat_categories: if cats.len() == 0 {
            None
        } else {
            Some(cats)
        },
        abuse_total_reports: match d.total_reports {
            Some(n) => Some(n as i32),
            None => None,
        },
        abuse_is_tor: d.is_tor,
        abuse_usage_type: d.usage_type,
        abuse_last_reported: last_reported_of(d.last_reported),
        ..no_facts()
    }
}

/// The categories, as sorted texts each once, are exactly the distinct
/// decimal texts of the reported numbers.
pub open spec fn category_set(d: AbuseView, cats: Seq<Seq<char>>) -> bool {
    &&& cats.to_set() == d.categories.map_values(|n: i64| decimal(n as int)).to_set()
    &&& forall|i: int, j: int| 0 <= i < j < cats.len() ==> lex_le(#[trigger] cats[i], #[trigger] cats[j])
    &&& cats.no_duplicates()
}

/// The facts of an answer's data.
pub fn threat_from(d: &AbuseData) -> (r: ThreatOutcome)
    ensures
        r matches ThreatOutcome::Found(f) && f@ == threat_facts(d@, ovs(f.threat_categories).unwrap_or(Seq::empty()))
            && category_set(d@, ovs(f.threat_categories).unwrap_or(Seq::empty())),
{
    let mut texts: Vec<String> = Vec::new();
    let mut i: usize = 0;
    while i < d.categories.len()
        invariant
            0 <= i <= d.categories@.len(),
            strs(texts@) == d.categories@.take(i as int).map_values(|n: i64| decimal(n as int)),
        decreases d.categories.len() - i,
    {
        let ghost before = texts@;
        texts.push(decimal_text(d.categories[i]));
        assert(strs(texts@) =~= strs(before).push(decimal(d.categories@[i as int] as int)));
        i = i + 1;
        assert(strs(texts@) =~= d.categories@.take(i as int).map_values(|n: i64| decimal(n as int)));
    }
    assert(d.categories@.take(d.categories@.len() as int) =~= d.categories@);
    let ghost want = d.categories@.map_values(|n: i64| decimal(n as int));
    let sorted = sort_texts(&texts);
    let cats = dedup_strings(&sorted);
    proof {
        let sv = strs(sorted@);
        lemma_dedup_runs_contains(sv);
        assert forall|i: int, j: int| 0 <= i < j < sv.len() implies lex_le(#[trigger] sv[i], #[trigger] sv[j]) by {
            assert(sv[i] == sorted@[i]@ && sv[j] == sorted@[j]@);
        }
        lemma_dedup_runs_sorted(sv);
        assert forall|x: Seq<char>| #[trigger] strs(cats@).to_set().contains(x) == want.to_set().contains(x) by {
            assert(strs(texts@) == want);
            assert(sv.contains(x) == strs(texts@).contains(x));
        }
        assert(strs(cats@).to_set() =~= want.to_set());
        lemma_dedup_runs_neighbours(sv);
        let cv = strs(cats@);
        assert forall|i: int, j: int| 0 <= i < j < cv.len() implies cv[i] != cv[j] by {
            if cv[i] == cv[j] {
                assert(cv[i] != cv[i + 1]);
                if i + 1 < j {
                    assert(lex_le(cv[i + 1], cv[j]));
                }
                assert(lex_le(cv[i], cv[i + 1]));
                lemma_lex_antisym(cv[i], cv[i + 1]);
            }
        }
        if cats@.len() == 0 {
            assert(strs(cats@) =~= Seq::<Seq<char>>::empty());
        }
    }
    let f = IpFacts {
        geo_country: None,
        geo_city: None,
        geo_lat: None,
        geo_lon: None,
        asn_number: None,
        asn_name: None,
        rdns: None,
        threat_score: match d.score {
            Some(n) => Some(n as i32),
            None => None,
        },
        threat_categories: if cats.len() == 0 {
            None
        } else {
            Some(cats)
        },
        abuse_total_reports: match d.total_reports {
            Some(n) => Some(n as i32),
            None => None,
        },
        abuse_last_reported: match &d.last_reported {
            Some(t) => parse_rfc3339_micros(t.as_str()),
            None => None,
        },
        abuse_is_tor: d.is_tor,
        abuse_usage_type: match &d.usage_type {
            Some(u) => Some(u.clone()),
            None => None,
        },
    };
    ThreatOutcome::Found(f)
}

// ---------------------------------------------------------------------------
// The body of an answer
// ---------------------------------------------------------------------------

/// The number a member of an object holds.
pub open spec fn member_int(obj: Seq<char>, key: Seq<char>) -> Option<i64> {
    match json_field(obj, key) {
        Some(t) => json_int(t),
        None => None,
    }
}

/// The flag a member of an object holds.
pub open spec fn member_flag(obj: Seq<char>, key: Seq<char>) -> Option<bool> {
    match json_field(obj, key) {
        Some(t) => json_flag(t),
        None => None,
    }
}

/// The text a member of an object holds.
pub open spec fn member_string(obj: Seq<char>, key: Seq<char>) -> Option<Seq<char>> {
    match json_field(obj, key) {
        Some(t) => json_string(t),
        None => None,
    }
}

/// The items of an array member of an object; none where it is missing or
/// no array.
pub open spec fn member_items(obj: Seq<char>, key: Seq<char>) -> Seq<Seq<char>> {
    match json_field(obj, key) {
        Some(t) => match json_array(t) {
            Some(v) => v,
            None => Seq::empty(),
        },
        None => Seq::empty(),
    }
}

/// The items that are numbers fitting an `i64`, in order.
pub open spec fn ints_of(items: Seq<Seq<char>>) -> Seq<i64>
    decreases items.len(),
{
    if items.len() == 0 {
        Seq::empty()
    } else {
        ints_of(items.drop_last()) + match json_int(items.last()) {
            Some(n) => seq![n],
            None => Seq::empty(),
        }
    }
}

/// The categories of all reports, in order: of each report, the numbers
/// of its `categories` array.
pub open spec fn report_categories(reports: Seq<Seq<char>>) -> Seq<i64>
    decreases reports.len(),
{
    if reports.len() == 0 {
        Seq::empty()
    } else {
        report_categories(reports.drop_last()) + ints_of(member_items(reports.last(), "categories"@))
    }
}

/// The parts of an answer's `data` object that are kept.
pub open spec fn answer_data(data: Seq<char>) -> AbuseView {
    AbuseView {
        score: member_int(data, "abuseConfidenceScore"@),
        categories: report_categories(member_items(data, "reports"@)),
        total_reports: member_int(data, "totalReports"@),
        is_tor: member_flag(data, "isTor"@),
        usage_type: member_string(data, "usageType"@),
        last_reported: member_string(data, "lastReportedAt"@),
    }
}

fn member_int_exec(obj: &str, key: &str) -> (r: Option<i64>)
    ensures
        r == member_int(obj@, key@),
{
    match read_field(obj, key) {
        Some(t) => read_int(t.as_str()),
        None => None,
    }
}

fn member_items_exec(obj: &str, key: &str) -> (r: Vec<String>)
    ensures
        texts_view(r@) == member_items(obj@, key@),
{
    match read_field(obj, key) {
        Some(t) => match read_items(t.as_str()) {
            Some(v) => v,
            None => {
                let v: Vec<String> = Vec::new();
                assert(texts_view(v@) =~= Seq::<Seq<char>>::empty());
                v
            },
        },
        None => {
            let v: Vec<String> = Vec::new();
            assert(texts_view(v@) =~= Seq::<Seq<char>>::empty());
            v
        },
    }
}

fn push_ints(out: &mut Vec<i64>, items: &Vec<String>)
    ensures
        final(out)@ == old(out)@ + ints_of(texts_view(items@)),
{
    let ghost start = out@;
    let ghost iv = texts_view(items@);
    let mut i: usize = 0;
    while i < items.len()
        invariant
            0 <= i <= items@.len(),
            iv == texts_view(items@),
            out@ == start + ints_of(iv.take(i as int)),
        decreases items.len() - i,
    {
        assert(iv.take(i + 1).drop_last() =~= iv.take(i as int));
        assert(iv.take(i + 1).last() == items@[i as int]@);
        let ghost before = out@;
        match read_int(items[i].as_str()) {
            Some(n) => {
                out.push(n);
                assert(out@ =~= start + ints_of(iv.take(i + 1)));
            },
            None => {
                assert(out@ =~= start + ints_of(iv.take(i + 1)));
            },
        }
        i = i + 1;
    }
    assert(iv.take(iv.len() as int) =~= iv);
}

/// The kept parts of an answer's `data` object.
fn answer_data_exec(data: &str) -> (r: AbuseData)
    ensures
        r@ == answer_data(data@),
{
    let reports = member_items_exec(data, "reports");
    let ghost rv = texts_view(reports@);
    let mut categories: Vec<i64> = Vec::new();
    let mut i: usize = 0;
    while i < reports.len()
        invariant
            0 <= i <= reports@.len(),
            rv == texts_view(reports@),
            categories@ == report_categories(rv.take(i as int)),
        decreases reports.len() - i,
    {
        assert(rv.take(i + 1).drop_last() =~= rv.take(i as int));
        assert(rv.take(i + 1).last() == reports@[i as int]@);
        let cats = member_items_exec(reports[i].as_str(), "categories");
        push_ints(&mut categories, &cats);
        i = i + 1;
    }
    assert(rv.take(rv.len() as int) =~= rv);
    let is_tor = match read_field(data, "isTor") {
        Some(t) => read_flag(t.as_str()),
        None => None,
    };
    let usage_type = match read_field(data, "usageType") {
        Some(t) => read_string(t.as_str()),
        None => None,
    };
    let last_reported = match read_field(data, "lastReportedAt") {
        Some(t) => read_string(t.as_str()),
        None => None,
    };
    AbuseData {
        score: member_int_exec(data, "abuseConfidenceScore"),
        categories,
        total_reports: member_int_exec(data, "totalReports"),
        is_tor,
        usage_type,
        last_reported,
    }
}

/// The facts of an answer's body: nothing found where it has no `data`
/// member; else what `threat_from` makes of the kept parts of `data`.
pub fn threat_from_body(body: &str) -> (r: ThreatOutcome)
    ensures
        json_field(body@, "data"@) is None ==> r is NotFound,
        json_field(body@, "data"@) matches Some(data) ==> r matches ThreatOutcome::Found(f) && f@ == threat_facts(
            answer_data(data),
            ovs(f.threat_categories).unwrap_or(Seq::empty()),
        ) && category_set(answer_data(data), ovs(f.threat_categories).unwrap_or(Seq::empty())),
{
    match read_field(body, "data") {
        None => ThreatOutcome::NotFound,
        Some(data) => threat_from(&answer_data_exec(data.as_str())),
    }
}

} // verus!
