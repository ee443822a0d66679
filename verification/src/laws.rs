//! Session-level laws: properties of the protocol engine stated and proved
//! over the mathematical model.

use vstd::prelude::*;

use crate::dedup::lemma_num_hinted_update;
use crate::dedup::num_hinted;
use crate::engine::add_hint_events;
use crate::engine::add_hint_state;
use crate::engine::hint_events;
use crate::engine::hint_fired;
use crate::engine::join_state;
use crate::engine::quit_events;
use crate::engine::start_events;
use crate::engine::start_state;
use crate::events::EventV;
use crate::events::OutboundV;
use crate::game::ClientV;
use crate::game::GameV;
use crate::game::distinct_ids;
use crate::game::ids_of;
use crate::game::in_roster;

verus! {

/// The turn order of a well-formed session is a permutation of its roster
/// ids, and joining a session with a fresh participant id keeps it so: both
/// sides of the permutation grow by exactly that id.
pub proof fn lemma_join_preserves_turn_order_permutation(g: GameV, cid: Seq<char>, uname: Seq<char>)
    requires
        g.wf(),
        !in_roster(g.roster, cid),
    ensures
        join_state(g, cid, uname).wf(),
        join_state(g, cid, uname).turns.to_multiset() == ids_of(
            join_state(g, cid, uname).roster,
        ).to_multiset(),
{
    let g2 = join_state(g, cid, uname);
    let cv = ClientV { id: cid, hint: None, username: uname };
    assert(forall|x: int| 0 <= x < g.roster.len() ==> (#[trigger] g.roster[x]).id != cid);
    assert(distinct_ids(g2.roster)) by {
        assert(forall|x: int| 0 <= x < g.roster.len() ==> g2.roster[x] == g.roster[x]);
    }
    assert(ids_of(g2.roster) =~= ids_of(g.roster).push(cid));
    vstd::seq_lib::to_multiset_build(g.turns, cid);
    vstd::seq_lib::to_multiset_build(ids_of(g.roster), cid);
    assert(g2.turns.to_multiset() =~= ids_of(g2.roster).to_multiset());
}

/// Starting a round with rolled roles takes the previous head of the turn
/// order, makes it the round's guesser (the recipient of the guesser-role
/// event), and re-appends it as the new tail.
pub proof fn lemma_start_round_rolls_guesser(g: GameV, word: Seq<char>)
    requires
        g.turns.len() > 0,
    ensures
        start_state(g, word, true).turns == g.turns.drop_first().push(g.turns.first()),
        start_state(g, word, true).turns.last() == g.turns.first(),
        start_events(g, word, true)[0] == (OutboundV {
            to: g.turns.first(),
            event: EventV::NewRoundGuesser,
        }),
{
    assert(g.turns.remove(0) =~= g.turns.drop_first());
    assert(start_state(g, word, true).turns =~= g.turns.drop_first().push(g.turns.first()));
}

/// Skipping the word keeps the guesser: the turn order is unchanged, the
/// guesser-role event goes to the tail (the previous round's guesser), the
/// new word is installed (so the word changes whenever the source supplied a
/// different one), and every stored hint is cleared.
pub proof fn lemma_skip_word_keeps_guesser(g: GameV, word: Seq<char>)
    requires
        g.turns.len() > 0,
    ensures
        start_state(g, word, false).turns == g.turns,
        start_events(g, word, false)[0] == (OutboundV {
            to: g.turns.last(),
            event: EventV::NewRoundGuesser,
        }),
        start_state(g, word, false).word == Some(word),
        g.word != Some(word) ==> start_state(g, word, false).word != g.word,
        forall|i: int|
            0 <= i < start_state(g, word, false).roster.len() ==> (#[trigger] start_state(
                g,
                word,
                false,
            ).roster[i]).hint is None,
{
    let n = g.turns.len() as int;
    assert(g.turns.remove(n - 1) =~= g.turns.drop_last());
    assert(g.turns.drop_last().push(g.turns[n - 1]) =~= g.turns);
    assert(start_state(g, word, false).turns =~= g.turns);
}

/// Completeness fires at most once per round: once every member but one has
/// a stored hint, no further submission triggers the summaries — a
/// re-submission is not a first hint, and a first hint by the one remaining
/// member (the guesser) raises the count beyond all-but-one.
pub proof fn lemma_completeness_fires_once(g: GameV, k: int, text: Seq<char>)
    requires
        0 <= k < g.roster.len(),
        num_hinted(g.roster) + 1 == g.roster.len(),
    ensures
        !hint_fired(g, k, text),
        add_hint_events(g, k, text) == hint_events(
            add_hint_state(g, k, text).roster,
            g.roster[k].id,
        ),
{
    let g2 = add_hint_state(g, k, text);
    if g.roster[k].hint is None {
        lemma_num_hinted_update(g.roster, k, ClientV { hint: Some(text), ..g.roster[k] });
        assert(num_hinted(g2.roster) == num_hinted(g.roster) + 1);
    }
    assert(add_hint_events(g, k, text) =~= hint_events(g2.roster, g.roster[k].id));
}

/// A disconnect shrinks the roster by exactly one, and every remaining
/// member is addressed by exactly one `quit` notification.
pub proof fn lemma_quit_reaches_each_remaining_once(g: GameV, k: int)
    requires
        g.wf(),
        0 <= k < g.roster.len(),
    ensures
        quit_events(g.roster.remove(k), g.roster[k].id).len() == g.roster.len() - 1,
        forall|i: int|
            0 <= i < g.roster.len() - 1 ==> #[trigger] quit_events(
                g.roster.remove(k),
                g.roster[k].id,
            )[i].to == g.roster.remove(k)[i].id,
        forall|i: int, j: int|
            0 <= i < j < g.roster.len() - 1 ==> quit_events(g.roster.remove(k), g.roster[k].id)[i].to
                != quit_events(g.roster.remove(k), g.roster[k].id)[j].to,
{
    let rest = g.roster.remove(k);
    assert forall|i: int, j: int|
        0 <= i < j < rest.len() implies quit_events(rest, g.roster[k].id)[i].to != quit_events(
        rest,
        g.roster[k].id,
    )[j].to by {
        let i0: int = if i < k { i } else { i + 1 };
        let j0: int = if j < k { j } else { j + 1 };
        assert(rest[i] == g.roster[i0]);
        assert(rest[j] == g.roster[j0]);
        assert(g.roster[i0].id != g.roster[j0].id);
    }
}

} // verus!
