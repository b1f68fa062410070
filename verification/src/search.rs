//! The search controller: candidates are tried in order until one is
//! confirmed or none is left.
//!
//! A search is a machine with three states. While it is `Searching` it
//! holds the candidate to be tried next and waits for the outcome of that
//! trial. An outcome that the validator confirms ends the search in `Found`;
//! any other outcome moves it on to the next candidate, or to `Exhausted`
//! when there is none. `Found` and `Exhausted` are final. One buffer holds
//! the candidate throughout, so that moving on allocates nothing.

use crate::enumerator::Enumerator;
use crate::keyspace::{lemma_enumeration_complete, Keyspace, KeyspaceView};
use crate::oracle::{outcome, ArchiveError, DecryptionOutcome, Entry};
use crate::validator::{accepted, validate, Secret};
use vstd::prelude::*;

verus! {

/// The secret that an outcome is taken for, if it is taken for one.
pub open spec fn confirmed(outcome: Option<Seq<u8>>) -> Option<Seq<char>> {
    match outcome {
        None => None,
        Some(bytes) => accepted(bytes),
    }
}

/// Whether `plan[p]` is the first candidate of `plan` that `judge` takes a
/// secret from.
pub open spec fn first_hit(
    plan: Seq<Seq<u8>>,
    judge: spec_fn(Seq<u8>) -> Option<Seq<char>>,
    p: int,
) -> bool {
    &&& 0 <= p < plan.len()
    &&& judge(plan[p]) is Some
    &&& forall|q: int| 0 <= q < p ==> judge(#[trigger] plan[q]) is None
}

/// What a search of `plan` under `judge` ends with: the secret of the first
/// candidate that yields one, or nothing when no candidate does.
pub open spec fn search_result(
    plan: Seq<Seq<u8>>,
    judge: spec_fn(Seq<u8>) -> Option<Seq<char>>,
) -> Option<Seq<char>> {
    if exists|p: int| first_hit(plan, judge, p) {
        judge(plan[choose|p: int| first_hit(plan, judge, p)])
    } else {
        None
    }
}

/// What the archive `archive` makes of `candidate` as the password of its
/// entry `name`: the secret that comes out, or nothing. With `whole_only`,
/// nothing comes out of a read that fails.
pub open spec fn verdict(archive: Seq<u8>, name: Seq<char>, whole_only: bool) -> spec_fn(
    Seq<u8>,
) -> Option<Seq<char>> {
    |candidate: Seq<u8>| confirmed(outcome(archive, name, whole_only, candidate))
}

/// Where a search stands.
#[derive(Debug, PartialEq, Eq)]
pub enum SearchState {
    /// The candidate held is to be tried next.
    Searching(Vec<u8>),
    /// A candidate was confirmed and gave this secret.
    Found(Secret),
    /// Every candidate was tried, and none was confirmed.
    Exhausted,
}

impl Clone for SearchState {
    fn clone(&self) -> (r: Self)
        ensures
            match (*self, r) {
                (SearchState::Searching(a), SearchState::Searching(b)) => a@ == b@,
                (SearchState::Found(a), SearchState::Found(b)) => a@ == b@,
                (SearchState::Exhausted, SearchState::Exhausted) => true,
                _ => false,
            },
    {
        match self {
            SearchState::Searching(candidate) => {
                let copy = candidate.clone();
                assert(copy@ =~= candidate@);
                SearchState::Searching(copy)
            },
            SearchState::Found(secret) => SearchState::Found(secret.clone()),
            SearchState::Exhausted => SearchState::Exhausted,
        }
    }
}

/// A search through the candidates of an enumerator.
pub struct Search<'a> {
    walk: Enumerator<'a>,
    candidate: Vec<u8>,
    found: Option<Secret>,
    searching: bool,
    plan: Ghost<Seq<Seq<u8>>>,
    examined: Ghost<nat>,
}

impl<'a> Search<'a> {
    #[verifier::type_invariant]
    spec fn inv(self) -> bool {
        if self.searching {
            &&& self.found is None
            &&& self.examined@ < self.plan@.len()
            &&& self.candidate@ == self.plan@[self.examined@ as int]
            &&& self.walk.remaining() == self.plan@.skip(self.examined@ as int + 1)
        } else if self.found is Some {
            self.examined@ < self.plan@.len()
        } else {
            self.examined@ == self.plan@.len()
        }
    }

    /// Every candidate that the search was set up to try, in order.
    pub closed spec fn plan(&self) -> Seq<Seq<u8>> {
        self.plan@
    }

    /// How many candidates were tried and not confirmed.
    pub closed spec fn examined(&self) -> nat {
        self.examined@
    }

    /// Where the search stands.
    pub closed spec fn state(&self) -> SearchState {
        if self.searching {
            SearchState::Searching(self.candidate)
        } else {
            match self.found {
                Some(secret) => SearchState::Found(secret),
                None => SearchState::Exhausted,
            }
        }
    }

    /// What always holds between the state, the plan and the count of
    /// candidates tried in vain: the candidate held while searching is the
    /// one that follows those, a confirmed candidate is one of the plan,
    /// and the search is exhausted only when the whole plan was tried.
    pub open spec fn coherent(&self) -> bool {
        match self.state() {
            SearchState::Searching(candidate) => {
                &&& self.examined() < self.plan().len()
                &&& candidate@ == self.plan()[self.examined() as int]
            },
            SearchState::Found(_) => self.examined() < self.plan().len(),
            SearchState::Exhausted => self.examined() == self.plan().len(),
        }
    }

    /// Sets up a search through what `walk` still has to hand out, and
    /// takes the first candidate from it.
    pub fn new(walk: Enumerator<'a>) -> (r: Self)
        ensures
            r.plan() == walk.remaining(),
            r.examined() == 0,
            r.coherent(),
            r.state() !is Found,
    {
        let ghost plan = walk.remaining();
        let mut walk = walk;
        let mut candidate: Vec<u8> = Vec::new();
        let searching = walk.next_into(&mut candidate);
        proof {
            assert(plan.skip(1) =~= plan.drop_first());
        }
        Search { walk, candidate, found: None, searching, plan: Ghost(plan), examined: Ghost(0) }
    }

    /// The candidate to be tried next, while the search goes on.
    pub fn candidate(&self) -> (r: Option<&Vec<u8>>)
        ensures
            self.coherent(),
            match self.state() {
                SearchState::Searching(candidate) => r == Some(&candidate),
                _ => r is None,
            },
    {
        proof {
            use_type_invariant(self);
        }
        if self.searching {
            Some(&self.candidate)
        } else {
            None
        }
    }

    /// Whether the search still goes on.
    pub fn is_searching(&self) -> (r: bool)
        ensures
            self.coherent(),
            r == (self.state() is Searching),
    {
        proof {
            use_type_invariant(self);
        }
        self.searching
    }

    /// Takes the outcome of trying the candidate held, and gives the search
    /// as it stands after it.
    ///
    /// A search that is over stays as it is. Otherwise an outcome that the
    /// validator confirms ends the search with its secret, and any other
    /// outcome moves the search on by one candidate.
    pub fn feed(self, outcome: DecryptionOutcome) -> (r: Self)
        ensures
            r.plan() == self.plan(),
            r.coherent(),
            self.state() !is Searching ==> {
                &&& r.state() == self.state()
                &&& r.examined() == self.examined()
            },
            self.state() is Searching ==> match confirmed(outcome@) {
                Some(text) => {
                    &&& r.state() matches SearchState::Found(secret)
                    &&& secret@ == text
                    &&& r.examined() == self.examined()
                },
                None => {
                    &&& r.state() !is Found
                    &&& r.examined() == self.examined() + 1
                },
            },
    {
        proof {
            use_type_invariant(&self);
        }
        if !self.searching {
            return self;
        }
        let confirmed = match outcome {
            DecryptionOutcome::Rejected => None,
            DecryptionOutcome::Tentative(bytes) => validate(bytes.as_slice()),
        };
        let Search { walk, candidate, found: _, searching: _, plan, examined } = self;
        match confirmed {
            Some(secret) => Search {
                walk,
                candidate,
                found: Some(secret),
                searching: false,
                plan,
                examined,
            },
            None => {
                let mut walk = walk;
                let mut candidate = candidate;
                let searching = walk.next_into(&mut candidate);
                proof {
                    let rest = plan@.skip(examined@ as int + 1);
                    assert(rest.len() == plan@.len() - examined@ - 1);
                    if rest.len() > 0 {
                        assert(rest[0] == plan@[examined@ as int + 1]);
                        assert(rest.drop_first() =~= plan@.skip(examined@ as int + 2));
                    }
                }
                Search {
                    walk,
                    candidate,
                    found: None,
                    searching,
                    plan,
                    examined: Ghost(examined@ + 1),
                }
            },
        }
    }

    /// Ends the search and hands over where it stood.
    pub fn into_state(self) -> (r: SearchState)
        ensures
            self.coherent(),
            r == self.state(),
    {
        proof {
            use_type_invariant(&self);
        }
        if self.searching {
            SearchState::Searching(self.candidate)
        } else {
            match self.found {
                Some(secret) => SearchState::Found(secret),
                None => SearchState::Exhausted,
            }
        }
    }
}

/// Two candidates cannot both be the first hit.
pub proof fn lemma_first_hit_unique(
    plan: Seq<Seq<u8>>,
    judge: spec_fn(Seq<u8>) -> Option<Seq<char>>,
    p: int,
    q: int,
)
    requires
        first_hit(plan, judge, p),
        first_hit(plan, judge, q),
    ensures
        p == q,
{
    if p < q {
        assert(judge(plan[p]) is None);
    } else if q < p {
        assert(judge(plan[q]) is None);
    }
}

/// A search ends with the secret of the first candidate that yields one.
pub proof fn lemma_search_finds(
    plan: Seq<Seq<u8>>,
    judge: spec_fn(Seq<u8>) -> Option<Seq<char>>,
    p: int,
)
    requires
        first_hit(plan, judge, p),
    ensures
        search_result(plan, judge) == judge(plan[p]),
{
    let chosen = choose|p: int| first_hit(plan, judge, p);
    lemma_first_hit_unique(plan, judge, p, chosen);
}

/// A search ends with nothing exactly when no candidate yields a secret.
pub proof fn lemma_search_fails(plan: Seq<Seq<u8>>, judge: spec_fn(Seq<u8>) -> Option<Seq<char>>)
    ensures
        search_result(plan, judge) is None <==> forall|q: int|
            0 <= q < plan.len() ==> judge(#[trigger] plan[q]) is None,
{
    if exists|q: int| 0 <= q < plan.len() && judge(#[trigger] plan[q]) is Some {
        let q = choose|q: int| 0 <= q < plan.len() && judge(#[trigger] plan[q]) is Some;
        let p = lemma_least_hit(plan, judge, q);
        lemma_search_finds(plan, judge, p);
    }
    if exists|p: int| first_hit(plan, judge, p) {
        let p = choose|p: int| first_hit(plan, judge, p);
        lemma_search_finds(plan, judge, p);
    }
}

proof fn lemma_least_hit(
    plan: Seq<Seq<u8>>,
    judge: spec_fn(Seq<u8>) -> Option<Seq<char>>,
    q: int,
) -> (p: int)
    requires
        0 <= q < plan.len(),
        judge(plan[q]) is Some,
    ensures
        first_hit(plan, judge, p),
        p <= q,
    decreases q,
{
    if exists|e: int| 0 <= e < q && judge(#[trigger] plan[e]) is Some {
        let e = choose|e: int| 0 <= e < q && judge(#[trigger] plan[e]) is Some;
        lemma_least_hit(plan, judge, e)
    } else {
        q
    }
}

/// Tries the candidates that `walk` hands out on `entry`, in order, and
/// stops at the first that is confirmed.
pub fn run(entry: &mut Entry, walk: Enumerator<'_>) -> (r: Option<Secret>)
    ensures
        final(entry).archive() == old(entry).archive(),
        final(entry).name() == old(entry).name(),
        final(entry).whole_only() == old(entry).whole_only(),
        match search_result(walk.remaining(), verdict(old(entry).archive(), old(entry).name(), old(entry).whole_only())) {
            Some(text) => r matches Some(secret) && secret@ == text,
            None => r is None,
        },
{
    let ghost plan = walk.remaining();
    let ghost judge = verdict(entry.archive(), entry.name(), entry.whole_only());
    let mut search = Search::new(walk);
    while search.is_searching()
        invariant
            search.plan() == plan,
            search.coherent(),
            entry.archive() == old(entry).archive(),
            entry.name() == old(entry).name(),
            entry.whole_only() == old(entry).whole_only(),
            judge == verdict(entry.archive(), entry.name(), entry.whole_only()),
            forall|q: int| 0 <= q < search.examined() ==> judge(#[trigger] plan[q]) is None,
            search.state() matches SearchState::Found(secret) ==> judge(
                plan[search.examined() as int],
            ) == Some(secret@),
        decreases
                plan.len() - search.examined() + (if search.state() is Searching {
                    1nat
                } else {
                    0nat
                }),
    {
        let outcome = match search.candidate() {
            None => DecryptionOutcome::Rejected,
            Some(candidate) => entry.attempt(candidate.as_slice()),
        };
        search = search.feed(outcome);
    }
    match search.into_state() {
        SearchState::Found(secret) => {
            proof {
                assert(first_hit(plan, judge, search.examined() as int));
                lemma_search_finds(plan, judge, search.examined() as int);
            }
            Some(secret)
        },
        _ => {
            proof {
                lemma_search_fails(plan, judge);
            }
            None
        },
    }
}

/// What is searched, and where: the keyspace and the name of the protected
/// entry.
pub struct SearchConfig {
    pub keyspace: Keyspace,
    pub entry_name: String,
    /// Whether a candidate under which the entry cannot be read to its end
    /// without an error counts as rejected. Left off, whatever was read
    /// goes to the validator, and the text test alone tells garbage from
    /// the secret; the shorter the secret, the likelier garbage passes.
    pub whole_reads_only: bool,
}

/// Why no secret was recovered.
#[derive(Debug, Clone, Copy, PartialEq, Eq, Structural)]
pub enum RecoverError {
    /// The archive could not be searched at all.
    Archive(ArchiveError),
    /// Every candidate of the keyspace was tried, and none was confirmed.
    NotFound,
}

/// What `recover` answers for an archive, an entry name and a keyspace.
pub open spec fn recovered(
    archive: Seq<u8>,
    name: Seq<char>,
    whole_only: bool,
    plan: Seq<Seq<u8>>,
) -> Result<Seq<char>, RecoverError> {
    match Entry::found(archive, name) {
        Err(e) => Err(RecoverError::Archive(e)),
        Ok(_) => match search_result(plan, verdict(archive, name, whole_only)) {
            Some(text) => Ok(text),
            None => Err(RecoverError::NotFound),
        },
    }
}

/// Whether the answer `r` says what `expected` says.
pub open spec fn agrees(
    r: Result<Secret, RecoverError>,
    expected: Result<Seq<char>, RecoverError>,
) -> bool {
    match r {
        Ok(secret) => expected == Ok::<Seq<char>, RecoverError>(secret@),
        Err(e) => expected == Err::<Seq<char>, RecoverError>(e),
    }
}

/// Recovering twice from one archive under one configuration gives the
/// same answer both times.
pub proof fn lemma_recover_repeatable(
    archive: Seq<u8>,
    name: Seq<char>,
    whole_only: bool,
    plan: Seq<Seq<u8>>,
    first: Result<Secret, RecoverError>,
    second: Result<Secret, RecoverError>,
)
    requires
        agrees(first, recovered(archive, name, whole_only, plan)),
        agrees(second, recovered(archive, name, whole_only, plan)),
    ensures
        match (first, second) {
            (Ok(a), Ok(b)) => a@ == b@,
            (Err(a), Err(b)) => a == b,
            _ => false,
        },
{
}

/// A password of the keyspace is recovered with its own secret, provided
/// the archive confirms it and confirms no candidate that is tried before
/// it.
pub proof fn lemma_recover_finds_password(
    archive: Seq<u8>,
    name: Seq<char>,
    whole_only: bool,
    space: KeyspaceView,
    password: Seq<u8>,
    secret: Seq<char>,
)
    requires
        Entry::found(archive, name) is Ok,
        space.holds(password),
        verdict(archive, name, whole_only)(password) == Some(secret),
        forall|q: int, p: int|
            #![trigger space.enumeration()[q], space.enumeration()[p]]
            0 <= q < p < space.enumeration().len() && space.enumeration()[p] == password
                ==> verdict(archive, name, whole_only)(space.enumeration()[q]) is None,
    ensures
        recovered(archive, name, whole_only, space.enumeration()) == Ok::<Seq<char>, RecoverError>(secret),
{
    let plan = space.enumeration();
    let judge = verdict(archive, name, whole_only);
    lemma_enumeration_complete(space, password);
    let p = choose|p: int| 0 <= p < plan.len() && plan[p] == password;
    assert forall|q: int| 0 <= q < p implies judge(#[trigger] plan[q]) is None by {
        assert(plan[p] == password);
    }
    assert(first_hit(plan, judge, p));
    lemma_search_finds(plan, judge, p);
}

/// A password that is no candidate of the keyspace, for its length or for
/// its symbols, is not found, provided the archive confirms no candidate
/// other than the password.
pub proof fn lemma_recover_misses_outside_password(
    archive: Seq<u8>,
    name: Seq<char>,
    whole_only: bool,
    space: KeyspaceView,
    password: Seq<u8>,
)
    requires
        Entry::found(archive, name) is Ok,
        !space.holds(password),
        forall|candidate: Seq<u8>|
            #[trigger] space.holds(candidate) && candidate != password ==> verdict(archive, name, whole_only)(
                candidate,
            ) is None,
    ensures
        recovered(archive, name, whole_only, space.enumeration()) == Err::<Seq<char>, RecoverError>(
            RecoverError::NotFound,
        ),
{
    let plan = space.enumeration();
    let judge = verdict(archive, name, whole_only);
    assert forall|q: int| 0 <= q < plan.len() implies judge(#[trigger] plan[q]) is None by {
        lemma_enumeration_complete(space, plan[q]);
        assert(plan.contains(plan[q]));
        assert(space.holds(plan[q]));
    }
    lemma_search_fails(plan, judge);
}

/// Recovers the secret of a password-protected archive entry by trying
/// every candidate of the keyspace, shorter ones first.
///
/// An archive that cannot be read, that lacks the entry, or whose entry
/// has a corrupt header is reported at once and nothing is tried. Otherwise
/// the answer is the secret that the first confirmed candidate gives, or
/// `NotFound` when the keyspace holds no such candidate. A candidate is
/// confirmed when the entry opens under it and the validator takes what
/// comes out for text; where the configuration counts whole reads only, the
/// entry must also read to its end without an error.
pub fn recover(archive: Vec<u8>, config: &SearchConfig) -> (r: Result<Secret, RecoverError>)
    ensures
        agrees(r, recovered(
            archive@,
            config.entry_name@,
            config.whole_reads_only,
            config.keyspace@.enumeration(),
        )),
{
    let mut entry = match Entry::open(archive, config.entry_name.as_str()) {
        Err(e) => {
            return Err(RecoverError::Archive(e));
        },
        Ok(entry) => entry.counting_whole_reads_only(config.whole_reads_only),
    };
    match run(&mut entry, Enumerator::new(&config.keyspace)) {
        Some(secret) => Ok(secret),
        None => Err(RecoverError::NotFound),
    }
}

} // verus!
