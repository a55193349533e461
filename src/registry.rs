use vstd::prelude::*;

use crate::tai::TaiTime;
use crate::text::{chars_of, decimal_value, is_u64_text, parse_u64};

verus! {

/// A registry as its advertisement describes it.
#[derive(Debug)]
pub struct Registry {
    pub host: String,
    pub port: u16,
    /// Lower numbers rank first.
    pub priority: u64,
    pub api_version: String,
}

/// A live registry advertisement, keyed by its service name.
#[derive(Debug)]
pub struct Candidate {
    pub name: String,
    pub registry: Registry,
    pub discovered: TaiTime,
}

/// Why a resolved advertisement was not taken as a candidate.
#[derive(Clone, Copy, Debug, PartialEq, Eq, Structural)]
pub enum CandidateError {
    MissingPriority,
    BadPriority,
    MissingVersion,
    UnsupportedVersion,
}

/// The TXT attribute that carries the priority.
pub open spec fn priority_key() -> Seq<char> {
    seq!['p', 'r', 'i']
}

/// The TXT attribute that carries the API versions.
pub open spec fn version_key() -> Seq<char> {
    seq!['a', 'p', 'i', '_', 'v', 'e', 'r']
}

/// The value of the first attribute from `i` on whose name is `key`.
pub open spec fn txt_lookup_from(txt: Seq<(String, String)>, key: Seq<char>, i: int) -> Option<
    String,
>
    decreases txt.len() - i,
{
    if i < 0 || i >= txt.len() {
        None
    } else if txt[i].0@ == key {
        Some(txt[i].1)
    } else {
        txt_lookup_from(txt, key, i + 1)
    }
}

/// The value of the first attribute whose name is `key`.
pub open spec fn txt_lookup(txt: Seq<(String, String)>, key: Seq<char>) -> Option<String> {
    txt_lookup_from(txt, key, 0)
}

/// An API version list of the supported family: it starts with `v1.`.
pub open spec fn supported_version(v: Seq<char>) -> bool {
    v.len() >= 3 && v[0] == 'v' && v[1] == '1' && v[2] == '.'
}

/// What parsing an advertisement gives, as a function of its attributes.
pub open spec fn parse_outcome(txt: Seq<(String, String)>) -> Result<(nat, String), CandidateError> {
    match txt_lookup(txt, priority_key()) {
        None => Err(CandidateError::MissingPriority),
        Some(p) => if !is_u64_text(p@) {
            Err(CandidateError::BadPriority)
        } else {
            match txt_lookup(txt, version_key()) {
                None => Err(CandidateError::MissingVersion),
                Some(v) => if !supported_version(v@) {
                    Err(CandidateError::UnsupportedVersion)
                } else {
                    Ok((decimal_value(p@), v))
                },
            }
        },
    }
}

fn txt_value<'a>(txt: &'a Vec<(String, String)>, key: &String) -> (r: Option<&'a String>)
    ensures
        r is None <==> txt_lookup(txt@, key@) is None,
        r matches Some(v) ==> txt_lookup(txt@, key@) == Some(*v),
{
    let mut i: usize = 0;
    while i < txt.len()
        invariant
            i <= txt@.len(),
            txt_lookup(txt@, key@) == txt_lookup_from(txt@, key@, i as int),
        decreases txt@.len() - i,
    {
        if txt[i].0 == *key {
            return Some(&txt[i].1);
        }
        i = i + 1;
    }
    None
}

fn is_supported_version(v: &String) -> (r: bool)
    ensures
        r == supported_version(v@),
{
    let c = chars_of(v.as_str());
    c.len() >= 3 && c[0] == 'v' && c[1] == '1' && c[2] == '.'
}

/// Reads a resolved advertisement's attributes: a numeric `pri` and an `api_ver`
/// of the supported family are required.
pub fn parse_candidate(host: String, port: u16, txt: &Vec<(String, String)>) -> (r: Result<
    Registry,
    CandidateError,
>)
    ensures
        match parse_outcome(txt@) {
            Err(e) => r == Err::<Registry, CandidateError>(e),
            Ok((p, v)) => r matches Ok(reg) && reg.host == host && reg.port == port && reg.priority
                == p && reg.api_version == v,
        },
{
    proof {
        reveal_strlit("pri");
        reveal_strlit("api_ver");
    }
    let pri_key = "pri".to_owned();
    let ver_key = "api_ver".to_owned();
    proof {
        assert(pri_key@ =~= priority_key());
        assert(ver_key@ =~= version_key());
    }
    let p = match txt_value(txt, &pri_key) {
        None => return Err(CandidateError::MissingPriority),
        Some(p) => p,
    };
    let pc = chars_of(p.as_str());
    proof {
        assert(pc@.subrange(0, pc@.len() as int) =~= pc@);
    }
    let priority = match parse_u64(&pc, 0, pc.len()) {
        None => return Err(CandidateError::BadPriority),
        Some(n) => n,
    };
    let v = match txt_value(txt, &ver_key) {
        None => return Err(CandidateError::MissingVersion),
        Some(v) => v,
    };
    if !is_supported_version(v) {
        return Err(CandidateError::UnsupportedVersion);
    }
    Ok(Registry { host, port, priority, api_version: v.clone() })
}

/// `a` ranks strictly before `b`: a lower priority number, or an equal one and an
/// earlier discovery.
pub open spec fn ranks_before(a: Candidate, b: Candidate) -> bool {
    a.registry.priority < b.registry.priority || (a.registry.priority == b.registry.priority
        && a.discovered.lt(b.discovered))
}

/// `a` ranks no later than `b`.
pub open spec fn ranks_no_later(a: Candidate, b: Candidate) -> bool {
    a.registry.priority < b.registry.priority || (a.registry.priority == b.registry.priority
        && a.discovered.le(b.discovered))
}

/// The candidate at `i` is the one to use: it ranks strictly before every earlier
/// entry and no later than every later one, so among equal ranks the first wins.
pub open spec fn is_best(s: Seq<Candidate>, i: int) -> bool {
    &&& 0 <= i < s.len()
    &&& forall|j: int| 0 <= j < i ==> ranks_before(s[i], #[trigger] s[j])
    &&& forall|j: int| i < j < s.len() ==> ranks_no_later(s[i], #[trigger] s[j])
}

/// The place of the active candidate, if any candidate is live.
pub open spec fn active_index(s: Seq<Candidate>) -> Option<int> {
    if exists|i: int| is_best(s, i) {
        Some(choose|i: int| is_best(s, i))
    } else {
        None
    }
}

/// The service name of the active candidate.
pub open spec fn active_name(s: Seq<Candidate>) -> Option<Seq<char>> {
    match active_index(s) {
        Some(i) => Some(s[i].name@),
        None => None,
    }
}

/// Whether a candidate has the service name `name`.
pub open spec fn has_name(s: Seq<Candidate>, name: Seq<char>) -> bool {
    exists|i: int| 0 <= i < s.len() && (#[trigger] s[i]).name@ == name
}

/// At most one place holds each best candidate.
proof fn lemma_best_unique(s: Seq<Candidate>, i: int)
    requires
        is_best(s, i),
    ensures
        active_index(s) == Some(i),
{
    let k = choose|k: int| is_best(s, k);
    if k < i {
        assert(ranks_before(s[i], s[k]));
        assert(ranks_no_later(s[k], s[i]));
    } else if k > i {
        assert(ranks_before(s[k], s[i]));
        assert(ranks_no_later(s[i], s[k]));
    }
}

/// `v` is `o` after a resolved advertisement of `name` with `registry` at `now`.
pub open spec fn after_resolved(
    o: Seq<Candidate>,
    v: Seq<Candidate>,
    name: String,
    registry: Registry,
    now: TaiTime,
) -> bool {
    &&& has_name(o, name@) ==> exists|k: int|
        0 <= k < o.len() && o[k].name@ == name@ && v == o.update(
            k,
            (Candidate { registry, ..o[k] }),
        )
    &&& !has_name(o, name@) ==> v == o.push((Candidate { name, registry, discovered: now }))
}

/// `v` is `o` after the advertisement of `name` was lost.
pub open spec fn after_lost(o: Seq<Candidate>, v: Seq<Candidate>, name: Seq<char>) -> bool {
    &&& has_name(o, name) ==> exists|k: int| 0 <= k < o.len() && o[k].name@ == name && v == o.remove(k)
    &&& !has_name(o, name) ==> v == o
}

/// Taking in `event` at `now` turned the candidates `before` into `after` with
/// outcome `r`: a rejected advertisement leaves them as they were.
pub open spec fn handle_event_post(
    before: Seq<Candidate>,
    after: Seq<Candidate>,
    event: DiscoveryEvent,
    now: TaiTime,
    r: EventOutcome,
) -> bool {
    match event {
        DiscoveryEvent::Resolved { name, host, port, txt } => match parse_outcome(txt@) {
            Err(e) => r == EventOutcome::Rejected(e) && after == before,
            Ok((p, v)) => {
                &&& r is Unchanged || r is ActiveChanged
                &&& (r is ActiveChanged) == (active_name(after) != active_name(before) || active_name(
                    after,
                ) == Some(name@))
                &&& exists|reg: Registry|
                    reg.host == host && reg.port == port && reg.priority == p && reg.api_version
                        == v && after_resolved(before, after, name, reg, now)
            },
        },
        DiscoveryEvent::Lost(name) => {
            &&& r is Unchanged || r is ActiveChanged
            &&& (r is ActiveChanged) == (active_name(after) != active_name(before))
            &&& after_lost(before, after, name@)
        },
        _ => r == EventOutcome::Unchanged && after == before,
    }
}

/// What a discovery listener reports.
#[derive(Debug)]
pub enum DiscoveryEvent {
    Found(String),
    Resolved { name: String, host: String, port: u16, txt: Vec<(String, String)> },
    Lost(String),
    Error(String),
}

/// What taking in one discovery event did.
#[derive(Clone, Copy, Debug, PartialEq, Eq, Structural)]
pub enum EventOutcome {
    /// The active candidate stayed as it was.
    Unchanged,
    /// The active candidate changed, or was itself replaced; it is to be published.
    ActiveChanged,
    /// The advertisement was dropped.
    Rejected(CandidateError),
}

/// The live registry candidates, in order of arrival, and which one is active.
pub struct Selector {
    candidates: Vec<Candidate>,
}

impl View for Selector {
    type V = Seq<Candidate>;

    closed spec fn view(&self) -> Seq<Candidate> {
        self.candidates@
    }
}

/// Service names are distinct.
pub open spec fn names_unique(s: Seq<Candidate>) -> bool {
    forall|i: int, j: int| 0 <= i < j < s.len() ==> (#[trigger] s[i]).name@ != (#[trigger] s[j]).name@
}

fn name_of_best(s: &Vec<Candidate>, b: Option<usize>) -> (r: Option<String>)
    requires
        b matches Some(i) ==> i < s@.len(),
    ensures
        b is None ==> r is None,
        b matches Some(i) ==> r matches Some(n) && n@ == s@[i as int].name@,
{
    match b {
        Some(i) => Some(s[i].name.clone()),
        None => None,
    }
}

fn names_differ(a: &Option<String>, b: &Option<String>) -> (r: bool)
    ensures
        r == (match (a, b) {
            (Some(x), Some(y)) => x@ != y@,
            (None, None) => false,
            _ => true,
        }),
{
    match (a, b) {
        (Some(x), Some(y)) => !(*x == *y),
        (None, None) => false,
        _ => true,
    }
}

impl Selector {
    pub fn new() -> (r: Selector)
        ensures
            r@.len() == 0,
    {
        Selector { candidates: Vec::new() }
    }

    pub open spec fn wf(&self) -> bool {
        names_unique(self@)
    }

    pub fn candidates(&self) -> (r: &Vec<Candidate>)
        ensures
            r@ == self@,
    {
        &self.candidates
    }

    fn best_index(s: &Vec<Candidate>) -> (r: Option<usize>)
        ensures
            r is None <==> s@.len() == 0,
            r matches Some(i) ==> is_best(s@, i as int),
            r is None ==> active_index(s@) is None,
            r matches Some(i) ==> active_index(s@) == Some(i as int),
    {
        if s.len() == 0 {
            return None;
        }
        let mut b: usize = 0;
        let mut j: usize = 1;
        while j < s.len()
            invariant
                0 <= b < j <= s@.len(),
                forall|m: int| 0 <= m < b ==> ranks_before(s@[b as int], #[trigger] s@[m]),
                forall|m: int| b < m < j ==> ranks_no_later(s@[b as int], #[trigger] s@[m]),
            decreases s@.len() - j,
        {
            let x = &s[j].registry;
            let y = &s[b].registry;
            if x.priority < y.priority || (x.priority == y.priority && s[j].discovered.is_before(
                &s[b].discovered,
            )) {
                b = j;
            }
            j = j + 1;
        }
        proof {
            lemma_best_unique(s@, b as int);
        }
        Some(b)
    }

    fn name_index(&self, name: &String) -> (r: Option<usize>)
        ensures
            r matches Some(k) ==> k < self@.len() && self@[k as int].name@ == name@,
            r is None ==> !has_name(self@, name@),
    {
        let mut k: usize = 0;
        while k < self.candidates.len()
            invariant
                k <= self.candidates@.len(),
                forall|i: int| 0 <= i < k ==> (#[trigger] self.candidates@[i]).name@ != name@,
            decreases self.candidates@.len() - k,
        {
            if self.candidates[k].name == *name {
                return Some(k);
            }
            k = k + 1;
        }
        None
    }

    /// The active candidate: the best ranked one, or none where none is live.
    pub fn active(&self) -> (r: Option<&Candidate>)
        ensures
            r is None <==> active_index(self@) is None,
            r is None <==> self@.len() == 0,
            r matches Some(c) ==> active_index(self@) matches Some(i) && *c == self@[i],
    {
        match Selector::best_index(&self.candidates) {
            Some(i) => Some(&self.candidates[i]),
            None => None,
        }
    }

    /// Takes in a resolved advertisement: a new service name is added as discovered
    /// at `now`; a known one has its registry replaced in place. Returns whether the
    /// active candidate changed or was itself replaced.
    pub fn resolved(&mut self, name: String, registry: Registry, now: TaiTime) -> (changed: bool)
        requires
            old(self).wf(),
        ensures
            final(self).wf(),
            after_resolved(old(self)@, final(self)@, name, registry, now),
            changed == (active_name(final(self)@) != active_name(old(self)@) || active_name(
                final(self)@,
            ) == Some(name@)),
    {
        let before = Selector::best_index(&self.candidates);
        let before_name = name_of_best(&self.candidates, before);
        let ghost name_view = name@;
        let key = name.clone();
        match self.name_index(&name) {
            Some(k) => {
                let mut c = self.candidates.remove(k);
                c.registry = registry;
                self.candidates.insert(k, c);
                proof {
                    assert(self.candidates@ =~= old(self)@.update(k as int, c));
                }
            },
            None => {
                self.candidates.push(Candidate { name, registry, discovered: now });
            },
        }
        proof {
            let o = old(self)@;
            let v = self@;
            assert forall|i: int, j: int| 0 <= i < j < v.len() implies (#[trigger] v[i]).name@ != (
            #[trigger] v[j]).name@ by {
                if j < o.len() {
                    assert(v[i].name == o[i].name && v[j].name == o[j].name);
                } else {
                    assert(v[i].name == o[i].name);
                }
            }
        }
        let after = Selector::best_index(&self.candidates);
        let after_name = name_of_best(&self.candidates, after);
        let is_this = match &after_name {
            Some(n) => *n == key,
            None => false,
        };
        names_differ(&before_name, &after_name) || is_this
    }

    /// Takes in the loss of an advertisement: the candidate of that service name, if
    /// any, is removed. Returns whether the active candidate changed.
    pub fn lost(&mut self, name: &String) -> (changed: bool)
        requires
            old(self).wf(),
        ensures
            final(self).wf(),
            after_lost(old(self)@, final(self)@, name@),
            changed == (active_name(final(self)@) != active_name(old(self)@)),
    {
        let before = Selector::best_index(&self.candidates);
        let before_name = name_of_best(&self.candidates, before);
        match self.name_index(name) {
            Some(k) => {
                self.candidates.remove(k);
                proof {
                    let o = old(self)@;
                    let v = self@;
                    assert forall|i: int, j: int| 0 <= i < j < v.len() implies (#[trigger] v[i]).name@
                        != (#[trigger] v[j]).name@ by {
                        let a = if i < k { i } else { i + 1 };
                        let b = if j < k { j } else { j + 1 };
                        assert(v[i] == o[a] && v[j] == o[b]);
                    }
                }
            },
            None => {},
        }
        let after = Selector::best_index(&self.candidates);
        let after_name = name_of_best(&self.candidates, after);
        names_differ(&before_name, &after_name)
    }

    /// Takes in one discovery event. A resolved advertisement is parsed first; one
    /// that is rejected leaves the candidates as they were.
    pub fn handle_event(&mut self, event: DiscoveryEvent, now: TaiTime) -> (r: EventOutcome)
        requires
            old(self).wf(),
        ensures
            final(self).wf(),
            handle_event_post(old(self)@, final(self)@, event, now, r),
    {
        match event {
            DiscoveryEvent::Resolved { name, host, port, txt } => {
                match parse_candidate(host, port, &txt) {
                    Err(e) => EventOutcome::Rejected(e),
                    Ok(reg) => {
                        if self.resolved(name, reg, now) {
                            EventOutcome::ActiveChanged
                        } else {
                            EventOutcome::Unchanged
                        }
                    },
                }
            },
            DiscoveryEvent::Lost(name) => {
                if self.lost(&name) {
                    EventOutcome::ActiveChanged
                } else {
                    EventOutcome::Unchanged
                }
            },
            _ => EventOutcome::Unchanged,
        }
    }
}

} // verus!
