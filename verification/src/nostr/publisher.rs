//! Events that everyone can read: announcements and results.
//!
//! Both kinds are addressable: a relay keeps one version for each kind and
//! identifier, and of two versions with the same time it keeps an arbitrary
//! one. So the versions of an event are given times that strictly increase.

use crate::counting::{CandidateTally, CountResult, CountRound};
use crate::json::{
    array_text, json_array, json_numbers, json_object, json_string, members_of, numbers_text,
    object_text, string_text, texts, Member,
};
use crate::text::{decimal, decimal_text, same_text, signed_decimal, signed_decimal_text};
use crate::types::{Candidate, Election};
use vstd::prelude::*;

verus! {

/// Kind of an announcement.
pub const ELECTION_EVENT_KIND: u16 = 35_000;

/// Kind of a result, or of a tally that is still growing.
pub const RESULT_EVENT_KIND: u16 = 35_001;

/// Where an addressable event is kept: its kind and its identifier.
pub type Coordinate = (u16, Seq<char>);

/// When an event was last published.
struct Published {
    kind: u16,
    identifier: String,
    created_at: u64,
}

/// The time of the last version of each event that was published. One entry for
/// each event; none is ever removed.
pub struct PublishClock {
    entries: Vec<Published>,
}

impl Published {
    spec fn coordinate(self) -> Coordinate {
        (self.kind, self.identifier@)
    }
}

/// Whether the entry at `i` is the one of an event.
spec fn stands_for(entries: Seq<Published>, i: int, event: Coordinate) -> bool {
    0 <= i < entries.len() && entries[i].coordinate() == event
}

/// The time of the next version of an event: now, or one second after the last
/// version where that is not in the past.
pub open spec fn next_stamp(clock: Map<Coordinate, nat>, event: Coordinate, now: nat) -> nat {
    if clock.dom().contains(event) && clock[event] >= now {
        clock[event] + 1
    } else {
        now
    }
}

impl View for PublishClock {
    type V = Map<Coordinate, nat>;

    /// The time of the last version of each event that was published.
    closed spec fn view(&self) -> Map<Coordinate, nat> {
        Map::new(
            |event: Coordinate| exists|i: int| stands_for(self.entries@, i, event),
            |event: Coordinate|
                self.entries@[choose|i: int|
                    stands_for(self.entries@, i, event)].created_at as nat,
        )
    }
}

impl PublishClock {
    /// No event has two entries.
    #[verifier::type_invariant]
    spec fn well_formed(self) -> bool {
        forall|i: int, j: int|
            0 <= i < self.entries@.len() && 0 <= j < self.entries@.len()
                && #[trigger] self.entries@[i].coordinate()
                == #[trigger] self.entries@[j].coordinate() ==> i == j
    }

    /// A clock that knows of no event.
    pub fn new() -> (clock: Self)
        ensures
            clock@ == Map::<Coordinate, nat>::empty(),
    {
        let clock = PublishClock { entries: Vec::new() };
        assert(clock@ =~= Map::<Coordinate, nat>::empty());
        clock
    }

    /// What the entry of an event says is what the clock says.
    proof fn lemma_entry(self, i: int)
        requires
            self.well_formed(),
            0 <= i < self.entries@.len(),
        ensures
            self@.dom().contains(self.entries@[i].coordinate()),
            self@[self.entries@[i].coordinate()] == self.entries@[i].created_at,
    {
        let event = self.entries@[i].coordinate();
        assert(stands_for(self.entries@, i, event));
        let j = choose|j: int| stands_for(self.entries@, j, event);
        assert(self.entries@[j].coordinate() == event);
    }

    /// Finds the entry of an event.
    fn find(&self, kind: u16, identifier: &str) -> (place: Option<usize>)
        ensures
            match place {
                Some(i) => stands_for(self.entries@, i as int, (kind, identifier@)),
                None => !self@.dom().contains((kind, identifier@)),
            },
    {
        let mut i: usize = 0;
        while i < self.entries.len()
            invariant
                i <= self.entries@.len(),
                forall|j: int|
                    0 <= j < i ==> #[trigger] self.entries@[j].coordinate() != (kind, identifier@),
            decreases self.entries@.len() - i,
        {
            if self.entries[i].kind == kind && same_text(
                self.entries[i].identifier.as_str(),
                identifier,
            ) {
                return Some(i);
            }
            i += 1;
        }
        None
    }

    /// When an event was last published, if it was.
    pub fn last_published(&self, kind: u16, identifier: &str) -> (last: Option<u64>)
        ensures
            match last {
                Some(time) => self@.dom().contains((kind, identifier@)) && self@[(
                    kind,
                    identifier@,
                )] == time,
                None => !self@.dom().contains((kind, identifier@)),
            },
    {
        match self.find(kind, identifier) {
            Some(i) => {
                proof {
                    use_type_invariant(self);
                    self.lemma_entry(i as int);
                }
                Some(self.entries[i].created_at)
            },
            None => None,
        }
    }

    /// The time of the next version of an event, which is noted: now, or one
    /// second after the last version where that is not in the past.
    pub fn next_created_at(&mut self, kind: u16, identifier: &str, now: u64) -> (created_at: u64)
        requires
            next_stamp(old(self)@, (kind, identifier@), now as nat) <= u64::MAX,
        ensures
            created_at == next_stamp(old(self)@, (kind, identifier@), now as nat),
            final(self)@ == old(self)@.insert((kind, identifier@), created_at as nat),
    {
        proof {
            use_type_invariant(&*self);
        }
        let ghost before = *self;
        let ghost event = (kind, identifier@);
        let place = self.find(kind, identifier);
        match place {
            Some(i) => {
                proof {
                    self.lemma_entry(i as int);
                }
                let last: u64 = self.entries[i].created_at;
                let created_at: u64 = if last >= now {
                    last + 1
                } else {
                    now
                };
                let entry = Published { kind, identifier: identifier.to_owned(), created_at };
                let mut entries: Vec<Published> = Vec::new();
                std::mem::swap(&mut entries, &mut self.entries);
                entries.set(i, entry);
                assert(forall|j: int|
                    0 <= j < entries@.len() ==> #[trigger] entries@[j].coordinate()
                        == before.entries@[j].coordinate());
                self.entries = entries;
                proof {
                    self.lemma_noted(before, event, i as int);
                }
                created_at
            },
            None => {
                let entry = Published { kind, identifier: identifier.to_owned(), created_at: now };
                let mut entries: Vec<Published> = Vec::new();
                std::mem::swap(&mut entries, &mut self.entries);
                entries.push(entry);
                proof {
                    assert forall|j: int| 0 <= j < before.entries@.len() implies
                        #[trigger] entries@[j].coordinate() != event by {
                        before.lemma_entry(j);
                        assert(entries@[j] == before.entries@[j]);
                    }
                    assert(forall|j: int|
                        0 <= j < before.entries@.len() ==> #[trigger] entries@[j].coordinate()
                            == before.entries@[j].coordinate());
                }
                self.entries = entries;
                proof {
                    self.lemma_noted(before, event, self.entries@.len() - 1);
                }
                now
            },
        }
    }

    /// A clock in which one entry was changed or added says the same of every
    /// other event.
    proof fn lemma_noted(self, before: PublishClock, event: Coordinate, i: int)
        requires
            self.well_formed(),
            before.well_formed(),
            stands_for(self.entries@, i, event),
            before.entries@.len() <= self.entries@.len() <= before.entries@.len() + 1,
            self.entries@.len() > before.entries@.len() ==> i == before.entries@.len(),
            forall|j: int|
                0 <= j < before.entries@.len() && j != i ==> #[trigger] self.entries@[j]
                    == before.entries@[j],
            0 <= i < before.entries@.len() ==> before.entries@[i].coordinate() == event,
        ensures
            self@ == before@.insert(event, self.entries@[i].created_at as nat),
    {
        let after = before@.insert(event, self.entries@[i].created_at as nat);
        self.lemma_entry(i);
        assert forall|other: Coordinate| #[trigger] self@.dom().contains(other) implies
            after.dom().contains(other) && after[other] == self@[other] by {
            let j = choose|j: int| stands_for(self.entries@, j, other);
            self.lemma_entry(j);
            if j != i {
                assert(self.entries@[j] == before.entries@[j]);
                assert(self.entries@[j].coordinate() != self.entries@[i].coordinate());
                before.lemma_entry(j);
            }
        }
        assert forall|other: Coordinate| #[trigger] after.dom().contains(other) implies
            self@.dom().contains(other) by {
            if other != event {
                let j = choose|j: int| stands_for(before.entries@, j, other);
                assert(self.entries@[j] == before.entries@[j]);
                self.lemma_entry(j);
            }
        }
        assert(self@ =~= after);
    }
}

/// A clock after some versions were published, each at a time.
pub open spec fn clock_after(
    clock: Map<Coordinate, nat>,
    versions: Seq<(Coordinate, nat)>,
) -> Map<Coordinate, nat>
    decreases versions.len(),
{
    if versions.len() == 0 {
        clock
    } else {
        let before = clock_after(clock, versions.drop_last());
        let (event, now) = versions.last();
        before.insert(event, next_stamp(before, event, now))
    }
}

/// The time that a version is given, of some that are published in turn.
pub open spec fn stamp_of(
    clock: Map<Coordinate, nat>,
    versions: Seq<(Coordinate, nat)>,
    i: int,
) -> nat {
    next_stamp(clock_after(clock, versions.take(i)), versions[i].0, versions[i].1)
}

/// Once a version was published, its event's last time is at least its own.
proof fn lemma_clock_keeps(
    clock: Map<Coordinate, nat>,
    versions: Seq<(Coordinate, nat)>,
    i: int,
    n: int,
)
    requires
        0 <= i < n <= versions.len(),
    ensures
        clock_after(clock, versions.take(n)).dom().contains(versions[i].0),
        clock_after(clock, versions.take(n))[versions[i].0] >= stamp_of(clock, versions, i),
    decreases n,
{
    assert(versions.take(n).drop_last() =~= versions.take(n - 1));
    assert(versions.take(n).last() == versions[n - 1]);
    if i < n - 1 {
        lemma_clock_keeps(clock, versions, i, n - 1);
    }
}

/// Versions of an event have strictly increasing times, whatever else is
/// published in between and however the clock of the machine goes; and no
/// version has a time before it was published.
pub proof fn law_stamps_increase(
    clock: Map<Coordinate, nat>,
    versions: Seq<(Coordinate, nat)>,
    i: int,
    j: int,
)
    requires
        0 <= i < j < versions.len(),
        versions[i].0 == versions[j].0,
    ensures
        stamp_of(clock, versions, i) < stamp_of(clock, versions, j),
        stamp_of(clock, versions, j) >= versions[j].1,
{
    lemma_clock_keeps(clock, versions, i, j);
}

/// The first version of an event, and any that comes after the time of the one
/// before it, has the time at which it is published.
pub proof fn law_stamps_are_the_time(clock: Map<Coordinate, nat>, event: Coordinate, now: nat)
    ensures
        !clock.dom().contains(event) || clock[event] < now ==> next_stamp(clock, event, now) == now,
{
}

/// The number of versions of an event.
pub open spec fn versions_of(versions: Seq<(Coordinate, nat)>, event: Coordinate) -> nat {
    versions.filter(|version: (Coordinate, nat)| version.0 == event).len()
}

/// Times run ahead by no more than a second for each version: while no version
/// was published after a time `now`, no event that was new at first has a last
/// time beyond `now` and the number of its versions but one.
pub proof fn law_stamps_stay_close(
    clock: Map<Coordinate, nat>,
    versions: Seq<(Coordinate, nat)>,
    event: Coordinate,
    now: nat,
)
    requires
        !clock.dom().contains(event),
        forall|i: int| 0 <= i < versions.len() ==> (#[trigger] versions[i]).1 <= now,
    ensures
        clock_after(clock, versions).dom().contains(event) <==> versions_of(versions, event) > 0,
        versions_of(versions, event) > 0 ==> clock_after(clock, versions)[event] <= now
            + versions_of(versions, event) - 1,
    decreases versions.len(),
{
    reveal(Seq::filter);
    if versions.len() > 0 {
        let before = versions.drop_last();
        assert(forall|i: int| 0 <= i < before.len() ==> before[i] == versions[i]);
        assert(versions.last() == versions[versions.len() - 1]);
        law_stamps_stay_close(clock, before, event, now);
    }
}

/// An event that is ready to be signed and sent.
pub struct EventDraft {
    pub kind: u16,
    pub content: String,
    /// The `d` tag.
    pub identifier: String,
    /// In seconds since the epoch.
    pub created_at: u64,
}

/// A candidate as JSON.
pub open spec fn candidate_json(candidate: Candidate) -> Seq<char> {
    json_object(
        seq![("id"@, decimal(candidate.id as nat)), ("name"@, json_string(candidate.name@))],
    )
}

/// The content of an announcement.
pub open spec fn election_content(election: Election, candidates: Seq<Candidate>) -> Seq<char> {
    json_object(
        seq![
            (
                "candidates"@,
                json_array(candidates.map_values(|candidate: Candidate| candidate_json(candidate))),
            ),
            ("election_id"@, json_string(election.id@)),
            ("end_time"@, signed_decimal(election.end_time as int)),
            ("name"@, json_string(election.name@)),
            ("rsa_pub_key"@, json_string(election.rsa_pub_key@)),
            ("rules_id"@, json_string(election.rules_id@)),
            ("start_time"@, signed_decimal(election.start_time as int)),
            ("status"@, json_string(election.status@)),
        ],
    )
}

/// A line of a tally as JSON.
pub open spec fn line_json(line: CandidateTally) -> Seq<char> {
    json_object(
        seq![
            ("candidate_id"@, decimal(line.candidate_id as nat)),
            ("status"@, json_string(line.status.wire_name())),
            ("votes"@, line.votes@),
        ],
    )
}

/// A tally as JSON.
pub open spec fn tally_json(tally: Seq<CandidateTally>) -> Seq<char> {
    json_array(tally.map_values(|line: CandidateTally| line_json(line)))
}

/// A round of a count as JSON.
pub open spec fn round_json(round: CountRound) -> Seq<char> {
    json_object(
        seq![
            ("action"@, json_string(round.action@)),
            ("round"@, decimal(round.round as nat)),
            ("tallies"@, tally_json(round.tallies@)),
        ],
    )
}

/// The member for the rounds of a count, where there are rounds.
pub open spec fn sheet_member(sheet: Option<Vec<CountRound>>) -> Seq<(Seq<char>, Seq<char>)> {
    match sheet {
        Some(rounds) => seq![
            (
                "count_sheet"@,
                json_array(rounds@.map_values(|round: CountRound| round_json(round))),
            ),
        ],
        None => Seq::empty(),
    }
}

/// The content of a result.
pub open spec fn result_content(election: Election, result: CountResult) -> Seq<char> {
    json_object(
        sheet_member(result.count_sheet) + seq![
            ("elected"@, json_numbers(result.elected@)),
            ("election_id"@, json_string(election.id@)),
            ("name"@, json_string(election.name@)),
            ("rules_id"@, json_string(election.rules_id@)),
            ("tally"@, tally_json(result.tally@)),
        ],
    )
}

/// Writes the candidates of an election as JSON.
fn candidates_text(candidates: &[Candidate]) -> (json: String)
    ensures
        json@ == json_array(
            candidates@.map_values(|candidate: Candidate| candidate_json(candidate)),
        ),
{
    let mut items: Vec<String> = Vec::new();
    let mut i: usize = 0;
    while i < candidates.len()
        invariant
            i <= candidates@.len(),
            items@.len() == i,
            forall|n: int| 0 <= n < i ==> (#[trigger] items@[n])@ == candidate_json(candidates@[n]),
        decreases candidates@.len() - i,
    {
        let members: Vec<Member> = vec![
            Member { key: "id", value: decimal_text(candidates[i].id as u64) },
            Member { key: "name", value: string_text(candidates[i].name.as_str()) },
        ];
        assert(members_of(members@) =~= seq![
            ("id"@, decimal(candidates@[i as int].id as nat)),
            ("name"@, json_string(candidates@[i as int].name@)),
        ]);
        items.push(object_text(&members));
        i += 1;
    }
    assert(texts(items@) =~= candidates@.map_values(
        |candidate: Candidate| candidate_json(candidate),
    ));
    array_text(&items)
}

/// Writes a tally as JSON.
fn tally_text(tally: &Vec<CandidateTally>) -> (json: String)
    ensures
        json@ == tally_json(tally@),
{
    let mut items: Vec<String> = Vec::new();
    let mut i: usize = 0;
    while i < tally.len()
        invariant
            i <= tally@.len(),
            items@.len() == i,
            forall|n: int| 0 <= n < i ==> (#[trigger] items@[n])@ == line_json(tally@[n]),
        decreases tally@.len() - i,
    {
        let line = &tally[i];
        let members: Vec<Member> = vec![
            Member { key: "candidate_id", value: decimal_text(line.candidate_id as u64) },
            Member { key: "status", value: string_text(line.status.as_str()) },
            Member { key: "votes", value: line.votes.clone() },
        ];
        assert(members_of(members@) =~= seq![
            ("candidate_id"@, decimal(line.candidate_id as nat)),
            ("status"@, json_string(line.status.wire_name())),
            ("votes"@, line.votes@),
        ]);
        items.push(object_text(&members));
        i += 1;
    }
    assert(texts(items@) =~= tally@.map_values(|line: CandidateTally| line_json(line)));
    array_text(&items)
}

/// Writes the rounds of a count as JSON.
fn sheet_text(rounds: &Vec<CountRound>) -> (json: String)
    ensures
        json@ == json_array(rounds@.map_values(|round: CountRound| round_json(round))),
{
    let mut items: Vec<String> = Vec::new();
    let mut i: usize = 0;
    while i < rounds.len()
        invariant
            i <= rounds@.len(),
            items@.len() == i,
            forall|n: int| 0 <= n < i ==> (#[trigger] items@[n])@ == round_json(rounds@[n]),
        decreases rounds@.len() - i,
    {
        let round = &rounds[i];
        let members: Vec<Member> = vec![
            Member { key: "action", value: string_text(round.action.as_str()) },
            Member { key: "round", value: decimal_text(round.round as u64) },
            Member { key: "tallies", value: tally_text(&round.tallies) },
        ];
        assert(members_of(members@) =~= seq![
            ("action"@, json_string(round.action@)),
            ("round"@, decimal(round.round as nat)),
            ("tallies"@, tally_json(round.tallies@)),
        ]);
        items.push(object_text(&members));
        i += 1;
    }
    assert(texts(items@) =~= rounds@.map_values(|round: CountRound| round_json(round)));
    array_text(&items)
}

/// Drafts the announcement of an election, or a new version of it. Its
/// identifier is the id of the election, so that relays keep the latest version
/// only.
pub fn publish_election_event(
    clock: &mut PublishClock,
    election: &Election,
    candidates: &[Candidate],
    now: u64,
) -> (draft: EventDraft)
    requires
        next_stamp(old(clock)@, (ELECTION_EVENT_KIND, election.id@), now as nat) <= u64::MAX,
    ensures
        draft.kind == ELECTION_EVENT_KIND,
        draft.content@ == election_content(*election, candidates@),
        draft.identifier@ == election.id@,
        draft.created_at == next_stamp(
            old(clock)@,
            (ELECTION_EVENT_KIND, election.id@),
            now as nat,
        ),
        final(clock)@ == old(clock)@.insert(
            (ELECTION_EVENT_KIND, election.id@),
            draft.created_at as nat,
        ),
{
    let members: Vec<Member> = vec![
        Member { key: "candidates", value: candidates_text(candidates) },
        Member { key: "election_id", value: string_text(election.id.as_str()) },
        Member { key: "end_time", value: signed_decimal_text(election.end_time) },
        Member { key: "name", value: string_text(election.name.as_str()) },
        Member { key: "rsa_pub_key", value: string_text(election.rsa_pub_key.as_str()) },
        Member { key: "rules_id", value: string_text(election.rules_id.as_str()) },
        Member { key: "start_time", value: signed_decimal_text(election.start_time) },
        Member { key: "status", value: string_text(election.status.as_str()) },
    ];
    assert(members_of(members@) =~= seq![
        (
            "candidates"@,
            json_array(candidates@.map_values(|candidate: Candidate| candidate_json(candidate))),
        ),
        ("election_id"@, json_string(election.id@)),
        ("end_time"@, signed_decimal(election.end_time as int)),
        ("name"@, json_string(election.name@)),
        ("rsa_pub_key"@, json_string(election.rsa_pub_key@)),
        ("rules_id"@, json_string(election.rules_id@)),
        ("start_time"@, signed_decimal(election.start_time as int)),
        ("status"@, json_string(election.status@)),
    ]);
    let created_at: u64 = clock.next_created_at(ELECTION_EVENT_KIND, election.id.as_str(), now);
    EventDraft {
        kind: ELECTION_EVENT_KIND,
        content: object_text(&members),
        identifier: election.id.clone(),
        created_at,
    }
}

/// Drafts the result of an election, or a new version of it. Its identifier is
/// the id of the election, so that relays keep the latest tally only.
pub fn publish_result_event(
    clock: &mut PublishClock,
    election: &Election,
    result: &CountResult,
    now: u64,
) -> (draft: EventDraft)
    requires
        result.well_formed(),
        next_stamp(old(clock)@, (RESULT_EVENT_KIND, election.id@), now as nat) <= u64::MAX,
    ensures
        draft.kind == RESULT_EVENT_KIND,
        draft.content@ == result_content(*election, *result),
        draft.identifier@ == election.id@,
        draft.created_at == next_stamp(
            old(clock)@,
            (RESULT_EVENT_KIND, election.id@),
            now as nat,
        ),
        final(clock)@ == old(clock)@.insert(
            (RESULT_EVENT_KIND, election.id@),
            draft.created_at as nat,
        ),
{
    let mut members: Vec<Member> = Vec::new();
    match &result.count_sheet {
        Some(rounds) => {
            members.push(Member { key: "count_sheet", value: sheet_text(rounds) });
        },
        None => {},
    }
    members.push(Member { key: "elected", value: numbers_text(result.elected.as_slice()) });
    members.push(Member { key: "election_id", value: string_text(election.id.as_str()) });
    members.push(Member { key: "name", value: string_text(election.name.as_str()) });
    members.push(Member { key: "rules_id", value: string_text(election.rules_id.as_str()) });
    members.push(Member { key: "tally", value: tally_text(&result.tally) });
    assert(members_of(members@) =~= sheet_member(result.count_sheet) + seq![
        ("elected"@, json_numbers(result.elected@)),
        ("election_id"@, json_string(election.id@)),
        ("name"@, json_string(election.name@)),
        ("rules_id"@, json_string(election.rules_id@)),
        ("tally"@, tally_json(result.tally@)),
    ]);
    let created_at: u64 = clock.next_created_at(RESULT_EVENT_KIND, election.id.as_str(), now);
    EventDraft {
        kind: RESULT_EVENT_KIND,
        content: object_text(&members),
        identifier: election.id.clone(),
        created_at,
    }
}

} // verus!
