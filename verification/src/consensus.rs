//! Collecting the answers of the nodes to a command, and deciding on one of them.

use vstd::prelude::*;

use crate::keyed::{entries_map, entry_in_map, has_key, distinct_keys, KeyedMap};
use crate::text::same;

verus! {

/// What the client is told when the nodes disagree.
pub open spec fn no_consensus() -> Seq<char> {
    "Error: No consensus reached among nodes"@
}

/// The servers that gave the answer `response`.
pub open spec fn voters(
    responses: Map<Seq<char>, Seq<char>>,
    response: Seq<char>,
) -> Set<Seq<char>> {
    responses.dom().filter(|server: Seq<char>| responses[server] == response)
}

/// How many servers gave the answer `response`.
pub open spec fn votes(responses: Map<Seq<char>, Seq<char>>, response: Seq<char>) -> nat {
    voters(responses, response).len()
}

/// The answer came from more than half of the required number of servers.
pub open spec fn has_majority(
    responses: Map<Seq<char>, Seq<char>>,
    required: nat,
    response: Seq<char>,
) -> bool {
    votes(responses, response) > required / 2
}

/// The answer has a majority, and no other answer came from more servers.
pub open spec fn wins(
    responses: Map<Seq<char>, Seq<char>>,
    required: nat,
    response: Seq<char>,
) -> bool {
    &&& has_majority(responses, required, response)
    &&& forall|other: Seq<char>| #[trigger] votes(responses, other) <= votes(responses, response)
}

/// What may come out of a collection: nothing while answers are missing; then a winning
/// answer if any answer has a majority, and otherwise the notice that there is no consensus.
/// Only where more servers answered than were required can two answers win.
pub open spec fn may_decide(
    responses: Map<Seq<char>, Seq<char>>,
    required: nat,
    outcome: Option<Seq<char>>,
) -> bool {
    if responses.dom().len() < required {
        outcome is None
    } else if exists|response: Seq<char>| #[trigger] has_majority(responses, required, response) {
        outcome is Some && wins(responses, required, outcome->0)
    } else {
        outcome == Some(no_consensus())
    }
}

/// What comes out of a collection in which no more servers answered than were required.
pub open spec fn decision(responses: Map<Seq<char>, Seq<char>>, required: nat) -> Option<
    Seq<char>,
> {
    choose|outcome: Option<Seq<char>>| may_decide(responses, required, outcome)
}

/// The servers that gave two different answers are different servers.
proof fn voters_disjoint(responses: Map<Seq<char>, Seq<char>>, a: Seq<char>, b: Seq<char>)
    requires
        responses.dom().finite(),
        a != b,
    ensures
        votes(responses, a) + votes(responses, b) <= responses.dom().len(),
{
    let va = voters(responses, a);
    let vb = voters(responses, b);
    vstd::set_lib::lemma_set_disjoint_lens(va, vb);
    vstd::set_lib::lemma_len_subset(va + vb, responses.dom());
}

/// Where no more servers answered than were required, at most one answer has a majority.
pub proof fn majority_is_unique(
    responses: Map<Seq<char>, Seq<char>>,
    required: nat,
    a: Seq<char>,
    b: Seq<char>,
)
    requires
        responses.dom().finite(),
        responses.dom().len() <= required,
        votes(responses, a) > required / 2,
        votes(responses, b) > required / 2,
    ensures
        a == b,
{
    if a != b {
        voters_disjoint(responses, a, b);
    }
}

/// Where some answer has a majority, some answer wins.
proof fn winner_exists(responses: Map<Seq<char>, Seq<char>>, required: nat, response: Seq<char>)
    requires
        responses.dom().finite(),
        has_majority(responses, required, response),
    ensures
        exists|winner: Seq<char>| wins(responses, required, winner),
    decreases responses.dom().len() - votes(responses, response),
{
    if !wins(responses, required, response) {
        let other = choose|other: Seq<char>| #[trigger]
            votes(responses, other) > votes(responses, response);
        vstd::set_lib::lemma_len_subset(voters(responses, other), responses.dom());
        winner_exists(responses, required, other);
    }
}

/// Something comes out of every collection, and it is nothing exactly while answers are
/// missing.
pub proof fn decision_exists(responses: Map<Seq<char>, Seq<char>>, required: nat)
    requires
        responses.dom().finite(),
    ensures
        may_decide(responses, required, decision(responses, required)),
        decision(responses, required) is None <==> responses.dom().len() < required,
{
    if responses.dom().len() < required {
        assert(may_decide(responses, required, None));
    } else if exists|response: Seq<char>| #[trigger] has_majority(responses, required, response) {
        let response = choose|response: Seq<char>| #[trigger]
            has_majority(responses, required, response);
        winner_exists(responses, required, response);
        let winner = choose|winner: Seq<char>| wins(responses, required, winner);
        assert(may_decide(responses, required, Some(winner)));
    } else {
        assert(may_decide(responses, required, Some(no_consensus())));
    }
}

/// Where no more servers answered than were required, what comes out is determined by the
/// answers.
pub proof fn decision_is_unique(
    responses: Map<Seq<char>, Seq<char>>,
    required: nat,
    outcome: Option<Seq<char>>,
)
    requires
        responses.dom().finite(),
        responses.dom().len() <= required,
        may_decide(responses, required, outcome),
    ensures
        decision(responses, required) == outcome,
{
    let chosen = decision(responses, required);
    assert(may_decide(responses, required, chosen));
    if responses.dom().len() >= required && exists|response: Seq<char>| #[trigger]
        has_majority(responses, required, response) {
        majority_is_unique(responses, required, chosen->0, outcome->0);
    }
}

/// Where all required servers gave the same answer, that answer is what comes out.
pub proof fn unanimity_decides(
    responses: Map<Seq<char>, Seq<char>>,
    required: nat,
    answer: Seq<char>,
    outcome: Option<Seq<char>>,
)
    requires
        responses.dom().finite(),
        responses.dom().len() > 0,
        responses.dom().len() >= required,
        forall|server: Seq<char>| #[trigger]
            responses.contains_key(server) ==> responses[server] == answer,
    ensures
        may_decide(responses, required, outcome) <==> outcome == Some(answer),
{
    assert(voters(responses, answer) =~= responses.dom());
    assert(has_majority(responses, required, answer));
    assert forall|other: Seq<char>| #[trigger] votes(responses, other) <= votes(responses, answer) by {
        vstd::set_lib::lemma_len_subset(voters(responses, other), responses.dom());
    }
    if may_decide(responses, required, outcome) && outcome->0 != answer {
        voters_disjoint(responses, outcome->0, answer);
    }
}

/// Where exactly the required servers answered, an answer with a majority is what comes out.
pub proof fn majority_decides(
    responses: Map<Seq<char>, Seq<char>>,
    required: nat,
    answer: Seq<char>,
    outcome: Option<Seq<char>>,
)
    requires
        responses.dom().finite(),
        responses.dom().len() == required,
        votes(responses, answer) > required / 2,
    ensures
        may_decide(responses, required, outcome) <==> outcome == Some(answer),
{
    assert forall|other: Seq<char>| #[trigger] votes(responses, other) <= votes(responses, answer) by {
        if other != answer {
            voters_disjoint(responses, other, answer);
        }
    }
    assert(has_majority(responses, required, answer));
    if may_decide(responses, required, outcome) {
        majority_is_unique(responses, required, outcome->0, answer);
    }
}

/// The votes of an answer are the number of the servers that gave it.
pub proof fn votes_count_servers(
    responses: Map<Seq<char>, Seq<char>>,
    answer: Seq<char>,
    servers: Set<Seq<char>>,
)
    requires
        forall|server: Seq<char>| #[trigger]
            servers.contains(server) <==> responses.contains_key(server) && responses[server]
                == answer,
    ensures
        votes(responses, answer) == servers.len(),
{
    assert(voters(responses, answer) =~= servers);
}

/// What comes out of any collection. While fewer servers have answered than are required,
/// nothing. Then an answer that more than half of the required number of servers gave, and
/// that no other answer outnumbers; where there is no such answer, the notice that there is no
/// consensus.
pub proof fn outcome_counts_votes(
    responses: Map<Seq<char>, Seq<char>>,
    required: nat,
    outcome: Option<Seq<char>>,
)
    ensures
        may_decide(responses, required, outcome) <==> match outcome {
            None => responses.dom().len() < required,
            Some(text) => responses.dom().len() >= required && ({
                ||| 2 * votes(responses, text) > required && forall|other: Seq<char>| #[trigger]
                    votes(responses, other) <= votes(responses, text)
                ||| text == "Error: No consensus reached among nodes"@ && forall|other: Seq<char>|
                    2 * #[trigger] votes(responses, other) <= required
            }),
        },
{
    if outcome is Some && responses.dom().len() >= required {
        let text = outcome->0;
        if exists|x: Seq<char>| #[trigger] has_majority(responses, required, x) {
            let x = choose|x: Seq<char>| #[trigger] has_majority(responses, required, x);
            assert(2 * votes(responses, x) > required);
        } else {
            assert(!has_majority(responses, required, text));
            assert forall|other: Seq<char>| 2 * #[trigger] votes(responses, other) <= required by {
                assert(!has_majority(responses, required, other));
            }
        }
    }
}

/// Where exactly the required servers answered, and some of them, more than half of the
/// required number, gave the same answer, that answer is what comes out, whatever the others
/// said.
pub proof fn more_than_half_decide(
    responses: Map<Seq<char>, Seq<char>>,
    required: nat,
    agreed: Set<Seq<char>>,
    answer: Seq<char>,
    outcome: Option<Seq<char>>,
)
    requires
        responses.dom().finite(),
        responses.dom().len() == required,
        agreed.subset_of(responses.dom()),
        forall|server: Seq<char>| #[trigger] agreed.contains(server) ==> responses[server] == answer,
        2 * agreed.len() > required,
    ensures
        may_decide(responses, required, outcome) <==> outcome == Some(answer),
        decision(responses, required) == Some(answer),
{
    let all = voters(responses, answer);
    assert(agreed.subset_of(all));
    vstd::set_lib::lemma_len_subset(agreed, all);
    assert(votes(responses, answer) >= agreed.len());
    majority_decides(responses, required, answer, outcome);
    majority_decides(responses, required, answer, Some(answer));
    decision_is_unique(responses, required, Some(answer));
}

/// Where an answer comes out that is not the notice, more than half of the required number of
/// servers gave it.
pub proof fn outcome_has_more_than_half(
    responses: Map<Seq<char>, Seq<char>>,
    required: nat,
    answer: Seq<char>,
    servers: Set<Seq<char>>,
)
    requires
        may_decide(responses, required, Some(answer)),
        answer != "Error: No consensus reached among nodes"@,
        forall|server: Seq<char>| #[trigger]
            servers.contains(server) <==> responses.contains_key(server) && responses[server]
                == answer,
    ensures
        responses.dom().len() >= required,
        2 * servers.len() > required,
{
    outcome_counts_votes(responses, required, Some(answer));
    votes_count_servers(responses, answer, servers);
}

/// Nothing comes out before the required number of servers has answered.
pub proof fn nothing_before_all_answered(
    responses: Map<Seq<char>, Seq<char>>,
    required: nat,
    outcome: Option<Seq<char>>,
)
    requires
        responses.dom().len() < required,
    ensures
        may_decide(responses, required, outcome) <==> outcome is None,
{
}

/// Where the required servers answered and no answer has a majority, the client is told so.
pub proof fn disagreement_is_reported(
    responses: Map<Seq<char>, Seq<char>>,
    required: nat,
    outcome: Option<Seq<char>>,
)
    requires
        responses.dom().len() >= required,
        forall|response: Seq<char>| #[trigger] votes(responses, response) <= required / 2,
    ensures
        may_decide(responses, required, outcome) <==> outcome == Some(
            "Error: No consensus reached among nodes"@,
        ),
{
    assert forall|response: Seq<char>| !#[trigger] has_majority(responses, required, response) by {
        assert(votes(responses, response) <= required / 2);
    }
}

/// What comes out is either nothing, or an answer that some server gave, or the notice that
/// there is no consensus.
pub proof fn decision_is_an_answer(
    responses: Map<Seq<char>, Seq<char>>,
    required: nat,
    outcome: Option<Seq<char>>,
)
    requires
        responses.dom().finite(),
        may_decide(responses, required, outcome),
        outcome is Some,
        outcome->0 != no_consensus(),
    ensures
        exists|server: Seq<char>| #[trigger]
            responses.contains_key(server) && responses[server] == outcome->0,
{
    let voted = voters(responses, outcome->0);
    assert(voted.len() > 0);
    if voted =~= Set::<Seq<char>>::empty() {
        assert(false);
    }
    let server = voted.choose();
    assert(voted.contains(server));
    assert(responses.contains_key(server));
}

/// A server that answers again replaces its answer: it is counted once.
pub proof fn answers_count_once(
    responses: Map<Seq<char>, Seq<char>>,
    server: Seq<char>,
    first: Seq<char>,
    second: Seq<char>,
)
    ensures
        responses.insert(server, first).insert(server, second) == responses.insert(server, second),
        responses.insert(server, first).dom() == responses.insert(server, second).dom(),
{
    assert(responses.insert(server, first).insert(server, second) =~= responses.insert(
        server,
        second,
    ));
    assert(responses.insert(server, first).dom() =~= responses.insert(server, second).dom());
}

/// How many entries have the value `response`.
fn count_votes(entries: &Vec<(String, String)>, response: &str) -> (r: usize)
    requires
        distinct_keys(entries@),
    ensures
        r == votes(entries_map(entries@), response@),
        r <= entries@.len(),
{
    let ghost m = entries_map(entries@);
    let ghost mut seen: Set<Seq<char>> = Set::empty();
    let mut r: usize = 0;
    let mut i: usize = 0;
    while i < entries.len()
        invariant
            i <= entries.len(),
            r <= i,
            distinct_keys(entries@),
            m == entries_map(entries@),
            seen.finite(),
            seen.len() == r,
            forall|server: Seq<char>| #[trigger]
                seen.contains(server) ==> exists|j: int|
                    0 <= j < i && #[trigger] entries@[j].0@ == server && entries@[j].1@ == response@,
            forall|j: int|
                0 <= j < i && entries@[j].1@ == response@ ==> seen.contains(
                    #[trigger] entries@[j].0@,
                ),
        decreases entries.len() - i,
    {
        if same(entries[i].1.as_str(), response) {
            proof {
                let server = entries@[i as int].0@;
                if seen.contains(server) {
                    let j = choose|j: int|
                        0 <= j < i && #[trigger] entries@[j].0@ == server && entries@[j].1@
                            == response@;
                    assert(entries@[j].0@ != entries@[i as int].0@);
                }
                seen = seen.insert(server);
            }
            r += 1;
        }
        i += 1;
    }
    proof {
        let all = voters(m, response@);
        assert forall|server: Seq<char>| seen.contains(server) implies all.contains(server) by {
            let j = choose|j: int|
                0 <= j < i && #[trigger] entries@[j].0@ == server && entries@[j].1@ == response@;
            entry_in_map(entries@, j);
        }
        assert forall|server: Seq<char>| all.contains(server) implies seen.contains(server) by {
            assert(has_key(entries@, server));
            let j = choose|j: int|
                0 <= j < entries@.len() && #[trigger] entries@[j].0@ == server;
            entry_in_map(entries@, j);
        }
        assert(seen =~= all);
    }
    r
}

/// What a collection of answers has come to.
#[verifier::ext_equal]
pub struct CollectorView {
    pub responses: Map<Seq<char>, Seq<char>>,
    pub command_id: Seq<char>,
    pub required_count: nat,
    pub client_addr: Seq<char>,
    pub created_at: u64,
}

/// The answers to one command.
pub struct ConsensusCollector {
    responses: KeyedMap<String>,
    command_id: String,
    required_count: usize,
    client_addr: String,
    created_at: u64,
}

impl View for ConsensusCollector {
    type V = CollectorView;

    closed spec fn view(&self) -> CollectorView {
        CollectorView {
            responses: self.responses@,
            command_id: self.command_id@,
            required_count: self.required_count as nat,
            client_addr: self.client_addr@,
            created_at: self.created_at,
        }
    }
}

impl ConsensusCollector {
    /// A collection that waits for `required_count` answers, begun at the time `created_at`.
    pub fn new(
        required_count: usize,
        command_id: String,
        client_addr: String,
        created_at: u64,
    ) -> (r: Self)
        ensures
            r@ == (CollectorView {
                responses: Map::empty(),
                command_id: command_id@,
                required_count: required_count as nat,
                client_addr: client_addr@,
                created_at,
            }),
    {
        ConsensusCollector {
            responses: KeyedMap::new(),
            command_id,
            required_count,
            client_addr,
            created_at,
        }
    }

    /// Adds the answer of a server, in place of one that it gave before, and decides once
    /// enough servers have answered.
    pub fn add_response(&mut self, server: String, response: String) -> (r: Option<String>)
        ensures
            final(self)@ == (CollectorView {
                responses: old(self)@.responses.insert(server@, response@),
                ..old(self)@
            }),
            final(self)@.responses.dom().finite(),
            may_decide(
                final(self)@.responses,
                final(self)@.required_count,
                match r {
                    Some(text) => Some(text@),
                    None => None,
                },
            ),
    {
        let ghost key = server@;
        self.responses.insert(server, response);
        let ghost m = self.responses@;
        let ghost required = self.required_count as nat;
        let len = self.responses.len();
        if len < self.required_count {
            return None;
        }
        let entries = self.responses.entries();
        assert(has_key(entries@, key)) by {
            assert(entries_map(entries@).contains_key(key));
        }
        let mut best: usize = 0;
        let mut best_votes: usize = count_votes(entries, entries[0].1.as_str());
        let mut i: usize = 1;
        while i < entries.len()
            invariant
                1 <= i <= entries.len(),
                best < i,
                distinct_keys(entries@),
                m == entries_map(entries@),
                best_votes == votes(m, entries@[best as int].1@),
                forall|j: int| 0 <= j < i ==> votes(m, #[trigger] entries@[j].1@) <= best_votes,
            decreases entries.len() - i,
        {
            let count = count_votes(entries, entries[i].1.as_str());
            if count >= best_votes {
                best = i;
                best_votes = count;
            }
            i += 1;
        }
        proof {
            assert forall|other: Seq<char>| #[trigger] votes(m, other) <= best_votes by {
                let voted = voters(m, other);
                if votes(m, other) > 0 {
                    if voted =~= Set::<Seq<char>>::empty() {
                        assert(false);
                    }
                    let s = voted.choose();
                    assert(voted.contains(s));
                    assert(has_key(entries@, s));
                    let j = choose|j: int|
                        0 <= j < entries@.len() && #[trigger] entries@[j].0@ == s;
                    entry_in_map(entries@, j);
                    assert(entries@[j].1@ == other);
                }
            }
        }
        if best_votes > self.required_count / 2 {
            assert(has_majority(m, required, entries@[best as int].1@));
            Some(entries[best].1.clone())
        } else {
            assert(!exists|x: Seq<char>| #[trigger] has_majority(m, required, x));
            Some("Error: No consensus reached among nodes".to_owned())
        }
    }

    /// The identifier of the command.
    pub fn command_id(&self) -> (r: &String)
        ensures
            r@ == self@.command_id,
    {
        &self.command_id
    }

    /// The address of the client that is waiting.
    pub fn client_addr(&self) -> (r: &String)
        ensures
            r@ == self@.client_addr,
    {
        &self.client_addr
    }

    /// How many answers are needed.
    pub fn required_count(&self) -> (r: usize)
        ensures
            r == self@.required_count,
    {
        self.required_count
    }

    /// How many servers have answered.
    pub fn response_count(&self) -> (r: usize)
        ensures
            r == self@.responses.dom().len(),
    {
        self.responses.len()
    }
}

} // verus!
