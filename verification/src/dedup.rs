//! Hint collection: completeness counting and classification of submitted
//! hints into unique and duplicate groups.

use vstd::prelude::*;
use vstd::relations::sorted_by;
use vstd::relations::total_ordering;
use vstd::seq_lib::lemma_sorted_unique;

use crate::events::ClientAndHint;
use crate::events::ClientAndHintV;
use crate::game::Client;
use crate::game::ClientV;
use crate::strutil::lemma_str_lt_transitive;
use crate::strutil::lemma_str_lt_trichotomy;
use crate::strutil::lower_of;
use crate::strutil::lowercase;
use crate::strutil::str_le;
use crate::strutil::str_lt;
use crate::strutil::str_lt_exec;

verus! {

/// How many roster members have submitted a hint for the active round.
pub open spec fn num_hinted(roster: Seq<ClientV>) -> nat
    decreases roster.len(),
{
    if roster.len() == 0 {
        0
    } else {
        num_hinted(roster.drop_last()) + if roster.last().hint is Some {
            1nat
        } else {
            0nat
        }
    }
}

/// Replacing one member changes the count only by its own contribution.
pub proof fn lemma_num_hinted_update(roster: Seq<ClientV>, k: int, c: ClientV)
    requires
        0 <= k < roster.len(),
    ensures
        num_hinted(roster.update(k, c)) + (if roster[k].hint is Some { 1nat } else { 0nat })
            == num_hinted(roster) + (if c.hint is Some { 1nat } else { 0nat }),
    decreases roster.len(),
{
    let upd = roster.update(k, c);
    if k == roster.len() - 1 {
        assert(upd.drop_last() =~= roster.drop_last());
    } else {
        assert(upd.drop_last() =~= roster.drop_last().update(k, c));
        lemma_num_hinted_update(roster.drop_last(), k, c);
    }
}

/// The lowercase form of the member's hint matches `low`.
pub open spec fn hint_matches(c: ClientV, low: Seq<char>) -> bool {
    c.hint is Some && lower_of(c.hint->0) == low
}

/// How many roster members submitted a hint whose lowercase form is `low`.
pub open spec fn count_low(roster: Seq<ClientV>, low: Seq<char>) -> nat
    decreases roster.len(),
{
    if roster.len() == 0 {
        0
    } else {
        count_low(roster.drop_last(), low) + if hint_matches(roster.last(), low) {
            1nat
        } else {
            0nat
        }
    }
}

/// The members of `prefix` whose hint, case-folded, was submitted by exactly
/// one member of `full`.
pub open spec fn sel_unique(full: Seq<ClientV>, prefix: Seq<ClientV>) -> Seq<ClientV>
    decreases prefix.len(),
{
    if prefix.len() == 0 {
        Seq::empty()
    } else {
        sel_unique(full, prefix.drop_last()) + if prefix.last().hint is Some && count_low(
            full,
            lower_of(prefix.last().hint->0),
        ) == 1 {
            seq![prefix.last()]
        } else {
            Seq::empty()
        }
    }
}

/// The members of `prefix` whose hint, case-folded, was submitted by two or
/// more members of `full`.
pub open spec fn sel_dup(full: Seq<ClientV>, prefix: Seq<ClientV>) -> Seq<ClientV>
    decreases prefix.len(),
{
    if prefix.len() == 0 {
        Seq::empty()
    } else {
        sel_dup(full, prefix.drop_last()) + if prefix.last().hint is Some && count_low(
            full,
            lower_of(prefix.last().hint->0),
        ) >= 2 {
            seq![prefix.last()]
        } else {
            Seq::empty()
        }
    }
}

/// Every selected member carries a hint.
pub proof fn lemma_sel_hinted(full: Seq<ClientV>, prefix: Seq<ClientV>)
    ensures
        forall|i: int|
            0 <= i < sel_unique(full, prefix).len() ==> (#[trigger] sel_unique(full, prefix)[i]).hint is Some,
        forall|i: int|
            0 <= i < sel_dup(full, prefix).len() ==> (#[trigger] sel_dup(full, prefix)[i]).hint is Some,
    decreases prefix.len(),
{
    if prefix.len() > 0 {
        lemma_sel_hinted(full, prefix.drop_last());
    }
}

/// A member id paired with its submitted hint, for the summary payloads.
pub open spec fn cah_of(s: Seq<ClientV>) -> Seq<ClientAndHintV> {
    s.map_values(|c: ClientV| ClientAndHintV { client: c.id, hint: c.hint->0 })
}

/// Order on summary entries: by participant id, then by hint text.
pub open spec fn cah_le(x: ClientAndHintV, y: ClientAndHintV) -> bool {
    str_lt(x.client, y.client) || (x.client == y.client && str_le(x.hint, y.hint))
}

pub open spec fn cah_leq() -> spec_fn(ClientAndHintV, ClientAndHintV) -> bool {
    |x: ClientAndHintV, y: ClientAndHintV| cah_le(x, y)
}

pub proof fn lemma_cah_le_total_ordering()
    ensures
        total_ordering(cah_leq()),
{
    let leq = cah_leq();
    assert forall|x: ClientAndHintV| #[trigger] leq(x, x) by {}
    assert forall|x: ClientAndHintV, y: ClientAndHintV| #[trigger] leq(x, y) || #[trigger] leq(
        y,
        x,
    ) by {
        lemma_str_lt_trichotomy(x.client, y.client);
        if x.client == y.client {
            lemma_str_lt_trichotomy(x.hint, y.hint);
        }
    }
    assert forall|x: ClientAndHintV, y: ClientAndHintV|
        #[trigger] leq(x, y) && #[trigger] leq(y, x) implies x == y by {
        lemma_str_lt_trichotomy(x.client, y.client);
        lemma_str_lt_trichotomy(x.hint, y.hint);
        assert(x =~= y);
    }
    assert forall|x: ClientAndHintV, y: ClientAndHintV, z: ClientAndHintV|
        #[trigger] leq(x, y) && #[trigger] leq(y, z) implies leq(x, z) by {
        lemma_str_lt_trichotomy(x.client, y.client);
        lemma_str_lt_trichotomy(y.client, z.client);
        if str_lt(x.client, y.client) && str_lt(y.client, z.client) {
            lemma_str_lt_transitive(x.client, y.client, z.client);
        }
        if x.client == y.client && y.client == z.client {
            if str_lt(x.hint, y.hint) && str_lt(y.hint, z.hint) {
                lemma_str_lt_transitive(x.hint, y.hint, z.hint);
            }
        }
    }
}

/// The unique-hint summary list: one entry per unique hinter, sorted.
pub open spec fn uniq_payload(roster: Seq<ClientV>) -> Seq<ClientAndHintV> {
    cah_of(sel_unique(roster, roster)).sort_by(cah_leq())
}

/// The duplicate-hint summary list: one entry per duplicate hinter, sorted.
pub open spec fn dup_payload(roster: Seq<ClientV>) -> Seq<ClientAndHintV> {
    cah_of(sel_dup(roster, roster)).sort_by(cah_leq())
}

/// The ids of the duplicate hinters, ascending.
pub open spec fn dup_ids(roster: Seq<ClientV>) -> Seq<Seq<char>> {
    dup_payload(roster).map_values(|x: ClientAndHintV| x.client)
}

/// A round's hints are complete when everyone but one member has hinted.
pub fn is_all_hints_given(clients: &Vec<Client>) -> (r: bool)
    ensures
        r == (num_hinted(clients.deep_view()) + 1 == clients@.len()),
{
    let n = clients.len();
    let mut count: usize = 0;
    let mut i: usize = 0;
    proof {
        assert(clients.deep_view().take(0) =~= Seq::<ClientV>::empty());
    }
    while i < n
        invariant
            n == clients@.len(),
            i <= n,
            count <= i,
            count == num_hinted(clients.deep_view().take(i as int)),
        decreases n - i,
    {
        let c = &clients[i];
        proof {
            let dv = clients.deep_view();
            assert(dv.take(i + 1).drop_last() =~= dv.take(i as int));
            assert(dv.take(i + 1).last() == dv[i as int]);
        }
        if c.hint.is_some() {
            count += 1;
        }
        i += 1;
    }
    proof {
        assert(clients.deep_view().take(n as int) =~= clients.deep_view());
    }
    n > 0 && count == n - 1
}

pub(crate) fn clone_client(c: &Client) -> (r: Client)
    ensures
        r@ == c@,
{
    let hint = match &c.hint {
        Some(h) => Some(h.clone()),
        None => None,
    };
    Client { client_id: c.client_id.clone(), hint, username: c.username.clone() }
}

/// The case-folded hint of every roster member, position by position.
fn lowered_hints(clients: &Vec<Client>) -> (lows: Vec<Option<String>>)
    ensures
        lows@.len() == clients@.len(),
        forall|j: int|
            0 <= j < clients@.len() ==> lows.deep_view()[j] == match clients.deep_view()[j].hint {
                Some(h) => Some(lower_of(h)),
                None => None::<Seq<char>>,
            },
{
    let n = clients.len();
    let mut lows: Vec<Option<String>> = Vec::new();
    let mut i: usize = 0;
    while i < n
        invariant
            n == clients@.len(),
            i <= n,
            lows@.len() == i,
            forall|j: int|
                0 <= j < i ==> lows.deep_view()[j] == match clients.deep_view()[j].hint {
                    Some(h) => Some(lower_of(h)),
                    None => None::<Seq<char>>,
                },
        decreases n - i,
    {
        let c = &clients[i];
        let low = match &c.hint {
            Some(h) => Some(lowercase(h.as_str())),
            None => None,
        };
        let ghost old_lows = lows.deep_view();
        let ghost pushed = low.deep_view();
        lows.push(low);
        proof {
            assert(lows.deep_view() =~= old_lows.push(pushed));
        }
        i += 1;
    }
    lows
}

/// Counts the entries of `lows` equal to `Some(low)`.
fn count_matching(lows: &Vec<Option<String>>, low: &String, ghost_roster: Ghost<Seq<ClientV>>) -> (r:
    usize)
    requires
        lows@.len() == ghost_roster@.len(),
        forall|j: int|
            0 <= j < ghost_roster@.len() ==> lows.deep_view()[j] == match ghost_roster@[j].hint {
                Some(h) => Some(lower_of(h)),
                None => None::<Seq<char>>,
            },
    ensures
        r == count_low(ghost_roster@, low@),
{
    let n = lows.len();
    let mut count: usize = 0;
    let mut i: usize = 0;
    proof {
        assert(ghost_roster@.take(0) =~= Seq::<ClientV>::empty());
    }
    while i < n
        invariant
            n == lows@.len(),
            n == ghost_roster@.len(),
            i <= n,
            count <= i,
            count == count_low(ghost_roster@.take(i as int), low@),
            forall|j: int|
                0 <= j < ghost_roster@.len() ==> lows.deep_view()[j] == match ghost_roster@[j].hint {
                    Some(h) => Some(lower_of(h)),
                    None => None::<Seq<char>>,
                },
        decreases n - i,
    {
        proof {
            let rv = ghost_roster@;
            assert(rv.take(i + 1).drop_last() =~= rv.take(i as int));
            assert(rv.take(i + 1).last() == rv[i as int]);
            assert(lows.deep_view()[i as int] == match ghost_roster@[i as int].hint {
                Some(h) => Some(lower_of(h)),
                None => None::<Seq<char>>,
            });
            assert(lows.deep_view()[i as int] == lows@[i as int].deep_view());
        }
        let matches = match &lows[i] {
            Some(l) => *l == *low,
            None => false,
        };
        if matches {
            count += 1;
        }
        i += 1;
    }
    proof {
        assert(ghost_roster@.take(n as int) =~= ghost_roster@);
    }
    count
}

/// The roster members whose case-folded hint nobody else submitted.
pub fn filter_unique_hinters(clients: &Vec<Client>) -> (r: Vec<Client>)
    ensures
        r.deep_view() == sel_unique(clients.deep_view(), clients.deep_view()),
{
    let lows = lowered_hints(clients);
    let n = clients.len();
    let mut out: Vec<Client> = Vec::new();
    let mut i: usize = 0;
    let ghost full = clients.deep_view();
    proof {
        assert(full.take(0) =~= Seq::<ClientV>::empty());
        assert(out.deep_view() =~= sel_unique(full, full.take(0)));
    }
    while i < n
        invariant
            n == clients@.len(),
            i <= n,
            full == clients.deep_view(),
            lows@.len() == clients@.len(),
            forall|j: int|
                0 <= j < clients@.len() ==> lows.deep_view()[j] == match clients.deep_view()[j].hint {
                    Some(h) => Some(lower_of(h)),
                    None => None::<Seq<char>>,
                },
            out.deep_view() == sel_unique(full, full.take(i as int)),
        decreases n - i,
    {
        proof {
            assert(full.take(i + 1).drop_last() =~= full.take(i as int));
            assert(full.take(i + 1).last() == full[i as int]);
            assert(lows.deep_view()[i as int] == match full[i as int].hint {
                Some(h) => Some(lower_of(h)),
                None => None::<Seq<char>>,
            });
            assert(lows.deep_view()[i as int] == lows@[i as int].deep_view());
        }
        let keep = match &lows[i] {
            Some(l) => count_matching(&lows, l, Ghost(full)) == 1,
            None => false,
        };
        let ghost old_out = out.deep_view();
        if keep {
            let c = &clients[i];
            out.push(clone_client(c));
            proof {
                assert(out.deep_view() =~= old_out.push(full[i as int]));
                assert(out.deep_view() =~= sel_unique(full, full.take(i + 1)));
            }
        } else {
            proof {
                assert(out.deep_view() =~= sel_unique(full, full.take(i + 1)));
            }
        }
        i += 1;
    }
    proof {
        assert(full.take(n as int) =~= full);
    }
    out
}

/// The roster members who share their case-folded hint with someone else.
pub fn filter_duplicate_hinters(clients: &Vec<Client>) -> (r: Vec<Client>)
    ensures
        r.deep_view() == sel_dup(clients.deep_view(), clients.deep_view()),
{
    let lows = lowered_hints(clients);
    let n = clients.len();
    let mut out: Vec<Client> = Vec::new();
    let mut i: usize = 0;
    let ghost full = clients.deep_view();
    proof {
        assert(full.take(0) =~= Seq::<ClientV>::empty());
        assert(out.deep_view() =~= sel_dup(full, full.take(0)));
    }
    while i < n
        invariant
            n == clients@.len(),
            i <= n,
            full == clients.deep_view(),
            lows@.len() == clients@.len(),
            forall|j: int|
                0 <= j < clients@.len() ==> lows.deep_view()[j] == match clients.deep_view()[j].hint {
                    Some(h) => Some(lower_of(h)),
                    None => None::<Seq<char>>,
                },
            out.deep_view() == sel_dup(full, full.take(i as int)),
        decreases n - i,
    {
        proof {
            assert(full.take(i + 1).drop_last() =~= full.take(i as int));
            assert(full.take(i + 1).last() == full[i as int]);
            assert(lows.deep_view()[i as int] == match full[i as int].hint {
                Some(h) => Some(lower_of(h)),
                None => None::<Seq<char>>,
            });
            assert(lows.deep_view()[i as int] == lows@[i as int].deep_view());
        }
        let keep = match &lows[i] {
            Some(l) => count_matching(&lows, l, Ghost(full)) >= 2,
            None => false,
        };
        let ghost old_out = out.deep_view();
        if keep {
            let c = &clients[i];
            out.push(clone_client(c));
            proof {
                assert(out.deep_view() =~= old_out.push(full[i as int]));
                assert(out.deep_view() =~= sel_dup(full, full.take(i + 1)));
            }
        } else {
            proof {
                assert(out.deep_view() =~= sel_dup(full, full.take(i + 1)));
            }
        }
        i += 1;
    }
    proof {
        assert(full.take(n as int) =~= full);
    }
    out
}

/// Decides the summary-entry order `cah_le`.
fn cah_le_exec(a: &ClientAndHint, b: &ClientAndHint) -> (r: bool)
    ensures
        r == cah_le(a@, b@),
{
    if str_lt_exec(a.client.as_str(), b.client.as_str()) {
        true
    } else if a.client == b.client {
        if a.hint == b.hint {
            true
        } else {
            str_lt_exec(a.hint.as_str(), b.hint.as_str())
        }
    } else {
        false
    }
}

fn clone_cah(x: &ClientAndHint) -> (r: ClientAndHint)
    ensures
        r@ == x@,
{
    ClientAndHint { client: x.client.clone(), hint: x.hint.clone() }
}

/// Copies a summary list (each event recipient gets its own copy).
pub(crate) fn clone_cah_vec(v: &Vec<ClientAndHint>) -> (r: Vec<ClientAndHint>)
    ensures
        r.deep_view() == v.deep_view(),
{
    let n = v.len();
    let mut out: Vec<ClientAndHint> = Vec::new();
    let mut i: usize = 0;
    proof {
        assert(out.deep_view() =~= v.deep_view().take(0));
    }
    while i < n
        invariant
            n == v@.len(),
            i <= n,
            out.deep_view() == v.deep_view().take(i as int),
        decreases n - i,
    {
        let ghost old_out = out.deep_view();
        out.push(clone_cah(&v[i]));
        proof {
            assert(out.deep_view() =~= old_out.push(v.deep_view()[i as int]));
            assert(out.deep_view() =~= v.deep_view().take(i + 1));
        }
        i += 1;
    }
    proof {
        assert(v.deep_view().take(n as int) =~= v.deep_view());
    }
    out
}

/// Sorts summary entries by `cah_le` (selection of the least remaining
/// entry, one per step).
fn sort_cah(v: Vec<ClientAndHint>) -> (r: Vec<ClientAndHint>)
    ensures
        r.deep_view() == v.deep_view().sort_by(cah_leq()),
{
    let mut src = v;
    let mut out: Vec<ClientAndHint> = Vec::new();
    let ghost orig = src.deep_view();
    proof {
        lemma_cah_le_total_ordering();
        assert(out.deep_view() =~= Seq::<ClientAndHintV>::empty());
        vstd::seq_lib::lemma_multiset_commutative(out.deep_view(), src.deep_view());
        assert(out.deep_view() + src.deep_view() =~= orig);
    }
    while src.len() > 0
        invariant
            (out.deep_view() + src.deep_view()).to_multiset() == orig.to_multiset(),
            sorted_by(out.deep_view(), cah_leq()),
            forall|a: int, b: int|
                0 <= a < out.deep_view().len() && 0 <= b < src.deep_view().len() ==> cah_le(
                    out.deep_view()[a],
                    src.deep_view()[b],
                ),
        decreases src.len(),
    {
        // Find the least remaining entry.
        let mut m: usize = 0;
        let mut k: usize = 1;
        while k < src.len()
            invariant
                src@.len() > 0,
                m < k <= src@.len() || (k <= src@.len() && m == 0),
                m < src@.len(),
                forall|j: int| 0 <= j < k ==> cah_le(src.deep_view()[m as int], src.deep_view()[j]),
            decreases src@.len() - k,
        {
            proof {
                lemma_cah_le_total_ordering();
            }
            if cah_le_exec(&src[k], &src[m]) {
                proof {
                    let leq = cah_leq();
                    assert forall|j: int| 0 <= j < k + 1 implies cah_le(
                        src.deep_view()[k as int],
                        src.deep_view()[j],
                    ) by {
                        if j < k {
                            assert(leq(src.deep_view()[k as int], src.deep_view()[m as int]));
                            assert(leq(src.deep_view()[m as int], src.deep_view()[j]));
                        } else {
                            assert(leq(src.deep_view()[k as int], src.deep_view()[k as int]));
                        }
                    }
                }
                m = k;
            } else {
                proof {
                    let leq = cah_leq();
                    assert(leq(src.deep_view()[k as int], src.deep_view()[m as int]) || leq(
                        src.deep_view()[m as int],
                        src.deep_view()[k as int],
                    ));
                }
            }
            k += 1;
        }
        let ghost old_src = src.deep_view();
        let ghost old_out = out.deep_view();
        let x = src.remove(m);
        out.push(x);
        proof {
            assert(src.deep_view() =~= old_src.remove(m as int));
            assert(out.deep_view() =~= old_out.push(old_src[m as int]));
            // Multiset bookkeeping: moving one element across the boundary.
            vstd::seq_lib::lemma_multiset_commutative(old_out, old_src);
            vstd::seq_lib::lemma_multiset_commutative(out.deep_view(), src.deep_view());
            old_src.to_multiset_ensures();
            old_out.to_multiset_ensures();
            vstd::seq_lib::to_multiset_remove(old_src, m as int);
            vstd::seq_lib::to_multiset_build(old_out, old_src[m as int]);
            assert((out.deep_view() + src.deep_view()).to_multiset() =~= orig.to_multiset());
            // The appended entry keeps the prefix sorted.
            let leq = cah_leq();
            assert forall|a: int, b: int|
                0 <= a < b < out.deep_view().len() implies leq(
                out.deep_view()[a],
                out.deep_view()[b],
            ) by {
                if b < old_out.len() {
                    assert(leq(old_out[a], old_out[b]));
                } else {
                    assert(leq(old_out[a], old_src[m as int]));
                }
            }
        }
    }
    proof {
        assert(src.deep_view() =~= Seq::<ClientAndHintV>::empty());
        assert(out.deep_view() + src.deep_view() =~= out.deep_view());
        lemma_cah_le_total_ordering();
        orig.lemma_sort_by_ensures(cah_leq());
        lemma_sorted_unique(out.deep_view(), orig.sort_by(cah_leq()), cah_leq());
        assert(forall|x: ClientAndHintV, y: ClientAndHintV|
            cah_leq()(x, y) == cah_le(x, y));
    }
    out
}

/// Pairs each hinter with its hint and sorts by participant id.
pub fn as_client_and_hints(clients: &Vec<Client>) -> (r: Vec<ClientAndHint>)
    requires
        forall|i: int| 0 <= i < clients@.len() ==> (#[trigger] clients.deep_view()[i]).hint is Some,
    ensures
        r.deep_view() == cah_of(clients.deep_view()).sort_by(cah_leq()),
{
    let n = clients.len();
    let mut mapped: Vec<ClientAndHint> = Vec::new();
    let mut i: usize = 0;
    proof {
        assert(mapped.deep_view() =~= cah_of(clients.deep_view().take(0)));
    }
    while i < n
        invariant
            n == clients@.len(),
            i <= n,
            forall|j: int|
                0 <= j < clients@.len() ==> (#[trigger] clients.deep_view()[j]).hint is Some,
            mapped.deep_view() == cah_of(clients.deep_view().take(i as int)),
        decreases n - i,
    {
        let c = &clients[i];
        let hint = match &c.hint {
            Some(h) => h.clone(),
            None => {
                proof {
                    assert(clients.deep_view()[i as int].hint is Some);
                }
                vstd::pervasive::unreached()
            },
        };
        let ghost old_mapped = mapped.deep_view();
        mapped.push(ClientAndHint { client: c.client_id.clone(), hint });
        proof {
            let dv = clients.deep_view();
            assert(mapped.deep_view() =~= old_mapped.push(
                ClientAndHintV { client: dv[i as int].id, hint: dv[i as int].hint->0 },
            ));
            assert(mapped.deep_view() =~= cah_of(dv.take(i + 1)));
        }
        i += 1;
    }
    proof {
        assert(clients.deep_view().take(n as int) =~= clients.deep_view());
    }
    sort_cah(mapped)
}

/// Classifies the submitted hints: unique entries, duplicate entries, and
/// the duplicate submitters' ids, each sorted ascending by participant id.
pub fn uniques_and_duplicates(clients: &Vec<Client>) -> (r: (
    Vec<ClientAndHint>,
    Vec<ClientAndHint>,
    Vec<String>,
))
    ensures
        r.0.deep_view() == uniq_payload(clients.deep_view()),
        r.1.deep_view() == dup_payload(clients.deep_view()),
        r.2.deep_view() == dup_ids(clients.deep_view()),
{
    let ghost full = clients.deep_view();
    let unique_hinters = filter_unique_hinters(clients);
    proof {
        lemma_sel_hinted(full, full);
    }
    let unique_hinter_clients = as_client_and_hints(&unique_hinters);
    let duplicate_hinters = filter_duplicate_hinters(clients);
    let duplicate_hinter_clients = as_client_and_hints(&duplicate_hinters);

    let n = duplicate_hinter_clients.len();
    let mut duplicate_hinter_ids: Vec<String> = Vec::new();
    let mut i: usize = 0;
    proof {
        assert(duplicate_hinter_ids.deep_view() =~= dup_payload(full).take(0).map_values(
            |x: ClientAndHintV| x.client,
        ));
        assert(dup_payload(full).take(0).map_values(|x: ClientAndHintV| x.client) =~= Seq::<
            Seq<char>,
        >::empty());
    }
    while i < n
        invariant
            n == duplicate_hinter_clients@.len(),
            i <= n,
            duplicate_hinter_clients.deep_view() == dup_payload(full),
            duplicate_hinter_ids.deep_view() == dup_payload(full).take(i as int).map_values(
                |x: ClientAndHintV| x.client,
            ),
        decreases n - i,
    {
        let ghost old_ids = duplicate_hinter_ids.deep_view();
        duplicate_hinter_ids.push(duplicate_hinter_clients[i].client.clone());
        proof {
            assert(duplicate_hinter_ids.deep_view() =~= old_ids.push(
                dup_payload(full)[i as int].client,
            ));
            assert(duplicate_hinter_ids.deep_view() =~= dup_payload(full).take(i + 1).map_values(
                |x: ClientAndHintV| x.client,
            ));
        }
        i += 1;
    }
    proof {
        assert(dup_payload(full).take(n as int) =~= dup_payload(full));
        assert(duplicate_hinter_ids.deep_view() =~= dup_ids(full));
    }
    (unique_hinter_clients, duplicate_hinter_clients, duplicate_hinter_ids)
}

} // verus!
