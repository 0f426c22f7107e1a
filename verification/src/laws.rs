//! The library's laws: vote accounting, the single vote slot, admin
//! immunity, the snapshot round trip, and preservation of the store's
//! semantic invariant by every command.

use vstd::prelude::*;
use crate::command::{apply_spec, can_unvote, can_vote, CommandView};
use crate::store::{DatabaseData, DatabaseDataSerde, dinner_kv_views, person_kv_views, StoreView};
use crate::table::distinct_keys;

verus! {

/// The store after a whole sequence of commands, applied first to last.
pub open spec fn apply_all(s: StoreView, cs: Seq<CommandView>) -> StoreView
    decreases cs.len(),
{
    if cs.len() == 0 {
        s
    } else {
        apply_spec(apply_all(s, cs.drop_last()), cs.last())
    }
}

/// The command is a vote or a revoke issued by `u`.
pub open spec fn is_vote_unvote_by(c: CommandView, u: Seq<char>) -> bool {
    match c {
        CommandView::Vote { user, dinner } => user == u,
        CommandView::Unvote { user, dinner } => user == u,
        _ => false,
    }
}

/// How many votes `u` successfully casts along `cs`, each accepted against
/// the store of its moment.
pub open spec fn casts(s: StoreView, cs: Seq<CommandView>, u: Seq<char>) -> nat
    decreases cs.len(),
{
    if cs.len() == 0 {
        0
    } else {
        casts(s, cs.drop_last(), u) + (match cs.last() {
            CommandView::Vote { user, dinner } => if user == u && can_vote(
                apply_all(s, cs.drop_last()),
                user,
                dinner,
            ) {
                1nat
            } else {
                0nat
            },
            _ => 0nat,
        })
    }
}

/// How many votes `u` successfully revokes along `cs`.
pub open spec fn refunds(s: StoreView, cs: Seq<CommandView>, u: Seq<char>) -> nat
    decreases cs.len(),
{
    if cs.len() == 0 {
        0
    } else {
        refunds(s, cs.drop_last(), u) + (match cs.last() {
            CommandView::Unvote { user, dinner } => if user == u && can_unvote(
                apply_all(s, cs.drop_last()),
                user,
                dinner,
            ) {
                1nat
            } else {
                0nat
            },
            _ => 0nat,
        })
    }
}

/// Vote accounting. After any sequence of votes and revokes issued by one
/// non-admin user, that user's counter equals its initial value minus the
/// votes successfully cast plus the votes successfully revoked; since the
/// counter never goes below zero, a vote that would do so is refused and
/// counts for nothing.
pub proof fn lemma_vote_accounting(s: StoreView, cs: Seq<CommandView>, u: Seq<char>)
    requires
        s.people.dom().contains(u),
        !s.people[u].admin,
        forall|i: int| 0 <= i < cs.len() ==> is_vote_unvote_by(#[trigger] cs[i], u),
    ensures
        apply_all(s, cs).people.dom().contains(u),
        !apply_all(s, cs).people[u].admin,
        apply_all(s, cs).people[u].votes + casts(s, cs, u) == s.people[u].votes + refunds(
            s,
            cs,
            u,
        ),
        casts(s, cs, u) <= s.people[u].votes + refunds(s, cs, u),
    decreases cs.len(),
{
    if cs.len() > 0 {
        let prefix = cs.drop_last();
        assert forall|i: int| 0 <= i < prefix.len() implies is_vote_unvote_by(
            #[trigger] prefix[i],
            u,
        ) by {
            assert(is_vote_unvote_by(cs[i], u));
        }
        lemma_vote_accounting(s, prefix, u);
        let pre = apply_all(s, prefix);
        let c = cs.last();
        assert(is_vote_unvote_by(cs[cs.len() - 1], u));
        match c {
            CommandView::Vote { user, dinner } => {
                if can_vote(pre, user, dinner) {
                    assert(pre.people[u].votes > 0);
                }
            },
            CommandView::Unvote { user, dinner } => {
                if can_unvote(pre, user, dinner) {
                    assert(pre.people[u].votes < 0xffff);
                }
            },
            _ => {
                assert(false);
            },
        }
    }
}

/// One slot per dinner: a vote aimed at a dinner whose slot is taken is
/// rejected outright, whoever holds it and whoever asks; the store does not
/// change at all.
pub proof fn lemma_occupied_slot_rejects_vote(
    s: StoreView,
    user: Seq<char>,
    dinner: Seq<char>,
    holder: Seq<char>,
)
    requires
        s.dinners.dom().contains(dinner),
        s.dinners[dinner].vote == Some(holder),
    ensures
        apply_spec(s, CommandView::Vote { user, dinner }) == s,
        apply_spec(s, CommandView::Vote { user, dinner }).dinners[dinner].vote == Some(holder),
{
}

/// An admin's counter is never touched by votes or revokes: not by their
/// own (admins vote and revoke for free), and not by anyone else's.
pub proof fn lemma_admin_counter_untouched(s: StoreView, c: CommandView, u: Seq<char>)
    requires
        s.people.dom().contains(u),
        s.people[u].admin,
        match c {
            CommandView::Vote { .. } => true,
            CommandView::Unvote { .. } => true,
            _ => false,
        },
    ensures
        apply_spec(s, c).people.dom().contains(u),
        apply_spec(s, c).people[u] == s.people[u],
{
    match c {
        CommandView::Vote { user, dinner } => {
            if can_vote(s, user, dinner) && !s.people[user].admin {
                assert(user != u);
            }
        },
        CommandView::Unvote { user, dinner } => {
            if can_unvote(s, user, dinner) && !s.people[user].admin {
                assert(user != u);
            }
        },
        _ => {},
    }
}

/// The snapshot round trip: hydrating a snapshot taken of a store yields a
/// store structurally equal to the one snapshotted — the same maps, and
/// entry for entry the same stored order. The premises are exactly what
/// `to_serde` ensures of `snap` and `from_serde` ensures of `reloaded`.
pub proof fn lemma_snapshot_round_trip(
    db: DatabaseData,
    snap: DatabaseDataSerde,
    reloaded: DatabaseData,
)
    requires
        db.inv(),
        dinner_kv_views(snap.dinners@) == db.dinners.seq_view(),
        person_kv_views(snap.people@) == db.people.seq_view(),
        reloaded@.dinners == crate::table::fold_insert(dinner_kv_views(snap.dinners@)),
        reloaded@.people == crate::table::fold_insert(person_kv_views(snap.people@)),
        distinct_keys(dinner_kv_views(snap.dinners@)) ==> reloaded.dinners.seq_view()
            == dinner_kv_views(snap.dinners@),
        distinct_keys(person_kv_views(snap.people@)) ==> reloaded.people.seq_view()
            == person_kv_views(snap.people@),
    ensures
        reloaded@ == db@,
        reloaded.dinners.seq_view() == db.dinners.seq_view(),
        reloaded.people.seq_view() == db.people.seq_view(),
{
}

/// The voter recorded on a dinner, if any, names an existing person.
pub open spec fn vote_ok(s: StoreView, d: Seq<char>) -> bool {
    match s.dinners[d].vote {
        Some(p) => s.people.dom().contains(p),
        None => true,
    }
}

/// The store's semantic invariant.
pub open spec fn wf(s: StoreView) -> bool {
    forall|d: Seq<char>| #[trigger] s.dinners.dom().contains(d) ==> vote_ok(s, d)
}

/// Every command, valid or not, leaves the semantic invariant standing; a
/// reader between any two commands sees a well-formed store.
pub proof fn lemma_apply_preserves_wf(s: StoreView, c: CommandView)
    requires
        wf(s),
    ensures
        wf(apply_spec(s, c)),
{
    let t = apply_spec(s, c);
    assert forall|d: Seq<char>| #[trigger] t.dinners.dom().contains(d) implies vote_ok(t, d) by {
        match c {
            CommandView::CreateUser { name } => {
                assert(vote_ok(s, d));
            },
            CommandView::Vote { user, dinner } => {
                if can_vote(s, user, dinner) {
                    if d != dinner {
                        assert(s.dinners.dom().contains(d));
                        assert(vote_ok(s, d));
                    }
                } else {
                    assert(vote_ok(s, d));
                }
            },
            CommandView::Unvote { user, dinner } => {
                if can_unvote(s, user, dinner) {
                    if d != dinner {
                        assert(s.dinners.dom().contains(d));
                        assert(vote_ok(s, d));
                    }
                } else {
                    assert(vote_ok(s, d));
                }
            },
            CommandView::NewDinner { user, name } => {
                if d != name {
                    assert(vote_ok(s, d));
                }
            },
            CommandView::RenameDinner { user, from, to } => {
                if crate::command::is_admin(s, user) && s.dinners.dom().contains(from) {
                    if d == to {
                        assert(s.dinners.dom().contains(from));
                        assert(vote_ok(s, from));
                    } else {
                        assert(s.dinners.dom().contains(d));
                        assert(vote_ok(s, d));
                    }
                } else {
                    assert(vote_ok(s, d));
                }
            },
            CommandView::EditShort { user, dinner, text } => {
                if d != dinner {
                    assert(vote_ok(s, d));
                } else {
                    assert(s.dinners.dom().contains(d));
                    assert(vote_ok(s, d));
                }
            },
            CommandView::EditLong { user, dinner, text } => {
                if d != dinner {
                    assert(vote_ok(s, d));
                } else {
                    assert(s.dinners.dom().contains(d));
                    assert(vote_ok(s, d));
                }
            },
            CommandView::EditPhoto { user, dinner, photo } => {
                if d != dinner {
                    assert(vote_ok(s, d));
                } else {
                    assert(s.dinners.dom().contains(d));
                    assert(vote_ok(s, d));
                }
            },
            CommandView::DeleteDinner { user, dinner } => {
                assert(s.dinners.dom().contains(d));
                assert(vote_ok(s, d));
            },
            CommandView::SetAllVotes { user, count } => {
                assert(vote_ok(s, d));
            },
        }
    }
}

/// The semantic invariant holds after any whole sequence of commands.
pub proof fn lemma_apply_all_preserves_wf(s: StoreView, cs: Seq<CommandView>)
    requires
        wf(s),
    ensures
        wf(apply_all(s, cs)),
    decreases cs.len(),
{
    if cs.len() > 0 {
        lemma_apply_all_preserves_wf(s, cs.drop_last());
        lemma_apply_preserves_wf(apply_all(s, cs.drop_last()), cs.last());
    }
}

} // verus!
