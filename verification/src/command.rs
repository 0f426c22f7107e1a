//! The mutating command set, its preconditions and authorization rules, and
//! the single transition function that applies a validated command to the
//! store. A command whose preconditions fail is discarded: no state change,
//! and deliberately no feedback to the requester.

use vstd::prelude::*;
use crate::store::{
    clone_bytes, clone_name_opt, clone_photo, DatabaseData, Dinner, DinnerView, Person, StoreView,
};
use crate::table::{distinct_keys, fold_insert, lemma_fold_insert_at, lemma_fold_insert_dom};

verus! {

/// A mutating command, as decoded from a request and consumed by the
/// single-writer actor.
pub enum Command {
    CreateUser { name: String },
    Vote { user: String, dinner: String },
    Unvote { user: String, dinner: String },
    NewDinner { user: String, name: String },
    RenameDinner { user: String, from: String, to: String },
    EditShort { user: String, dinner: String, text: String },
    EditLong { user: String, dinner: String, text: String },
    EditPhoto { user: String, dinner: String, photo: Vec<u8> },
    DeleteDinner { user: String, dinner: String },
    SetAllVotes { user: String, count: u16 },
}

/// The abstract content of a `Command`.
pub enum CommandView {
    CreateUser { name: Seq<char> },
    Vote { user: Seq<char>, dinner: Seq<char> },
    Unvote { user: Seq<char>, dinner: Seq<char> },
    NewDinner { user: Seq<char>, name: Seq<char> },
    RenameDinner { user: Seq<char>, from: Seq<char>, to: Seq<char> },
    EditShort { user: Seq<char>, dinner: Seq<char>, text: Seq<char> },
    EditLong { user: Seq<char>, dinner: Seq<char>, text: Seq<char> },
    EditPhoto { user: Seq<char>, dinner: Seq<char>, photo: Seq<u8> },
    DeleteDinner { user: Seq<char>, dinner: Seq<char> },
    SetAllVotes { user: Seq<char>, count: u16 },
}

impl View for Command {
    type V = CommandView;

    open spec fn view(&self) -> CommandView {
        match self {
            Command::CreateUser { name } => CommandView::CreateUser { name: name@ },
            Command::Vote { user, dinner } => CommandView::Vote { user: user@, dinner: dinner@ },
            Command::Unvote { user, dinner } => CommandView::Unvote {
                user: user@,
                dinner: dinner@,
            },
            Command::NewDinner { user, name } => CommandView::NewDinner {
                user: user@,
                name: name@,
            },
            Command::RenameDinner { user, from, to } => CommandView::RenameDinner {
                user: user@,
                from: from@,
                to: to@,
            },
            Command::EditShort { user, dinner, text } => CommandView::EditShort {
                user: user@,
                dinner: dinner@,
                text: text@,
            },
            Command::EditLong { user, dinner, text } => CommandView::EditLong {
                user: user@,
                dinner: dinner@,
                text: text@,
            },
            Command::EditPhoto { user, dinner, photo } => CommandView::EditPhoto {
                user: user@,
                dinner: dinner@,
                photo: photo@,
            },
            Command::DeleteDinner { user, dinner } => CommandView::DeleteDinner {
                user: user@,
                dinner: dinner@,
            },
            Command::SetAllVotes { user, count } => CommandView::SetAllVotes {
                user: user@,
                count: *count,
            },
        }
    }
}

/// The user exists and holds the admin flag.
pub open spec fn is_admin(s: StoreView, user: Seq<char>) -> bool {
    s.people.dom().contains(user) && s.people[user].admin
}

/// A vote is accepted when user and dinner exist, the dinner's slot is
/// empty, and the user either has votes left or is an admin (admins vote
/// for free).
pub open spec fn can_vote(s: StoreView, user: Seq<char>, dinner: Seq<char>) -> bool {
    &&& s.people.dom().contains(user)
    &&& s.dinners.dom().contains(dinner)
    &&& s.dinners[dinner].vote is None
    &&& (s.people[user].votes > 0 || s.people[user].admin)
}

/// A revoke is accepted when user and dinner exist and the user either holds
/// the dinner's vote or is an admin (who may clear anyone's vote, without a
/// refund to anyone). A non-admin whose counter is already at the maximum is
/// refused rather than let the refund overflow.
pub open spec fn can_unvote(s: StoreView, user: Seq<char>, dinner: Seq<char>) -> bool {
    &&& s.people.dom().contains(user)
    &&& s.dinners.dom().contains(dinner)
    &&& (s.dinners[dinner].vote == Some(user) || s.people[user].admin)
    &&& (s.people[user].admin || s.people[user].votes < 0xffff)
}

/// What one command does to the store: the validated state transition, or
/// the identity when a precondition fails.
pub open spec fn apply_spec(s: StoreView, c: CommandView) -> StoreView {
    match c {
        CommandView::CreateUser { name } => {
            if !s.people.dom().contains(name) {
                StoreView {
                    dinners: s.dinners,
                    people: s.people.insert(name, Person { votes: 0, admin: false }),
                }
            } else {
                s
            }
        },
        CommandView::Vote { user, dinner } => {
            if can_vote(s, user, dinner) {
                let d = s.dinners[dinner];
                let p = s.people[user];
                StoreView {
                    dinners: s.dinners.insert(
                        dinner,
                        DinnerView { short: d.short, long: d.long, photo: d.photo, vote: Some(user) },
                    ),
                    people: if p.admin {
                        s.people
                    } else {
                        s.people.insert(
                            user,
                            Person { votes: (p.votes - 1) as u16, admin: p.admin },
                        )
                    },
                }
            } else {
                s
            }
        },
        CommandView::Unvote { user, dinner } => {
            if can_unvote(s, user, dinner) {
                let d = s.dinners[dinner];
                let p = s.people[user];
                StoreView {
                    dinners: s.dinners.insert(
                        dinner,
                        DinnerView { short: d.short, long: d.long, photo: d.photo, vote: None },
                    ),
                    people: if p.admin {
                        s.people
                    } else {
                        s.people.insert(
                            user,
                            Person { votes: (p.votes + 1) as u16, admin: p.admin },
                        )
                    },
                }
            } else {
                s
            }
        },
        CommandView::NewDinner { user, name } => {
            if is_admin(s, user) && !s.dinners.dom().contains(name) {
                StoreView {
                    dinners: s.dinners.insert(
                        name,
                        DinnerView {
                            short: seq!['-'],
                            long: seq!['-'],
                            photo: None,
                            vote: None,
                        },
                    ),
                    people: s.people,
                }
            } else {
                s
            }
        },
        CommandView::RenameDinner { user, from, to } => {
            if is_admin(s, user) && s.dinners.dom().contains(from) {
                StoreView {
                    dinners: s.dinners.remove(from).insert(to, s.dinners[from]),
                    people: s.people,
                }
            } else {
                s
            }
        },
        CommandView::EditShort { user, dinner, text } => {
            if is_admin(s, user) && s.dinners.dom().contains(dinner) {
                let d = s.dinners[dinner];
                StoreView {
                    dinners: s.dinners.insert(
                        dinner,
                        DinnerView { short: text, long: d.long, photo: d.photo, vote: d.vote },
                    ),
                    people: s.people,
                }
            } else {
                s
            }
        },
        CommandView::EditLong { user, dinner, text } => {
            if is_admin(s, user) && s.dinners.dom().contains(dinner) {
                let d = s.dinners[dinner];
                StoreView {
                    dinners: s.dinners.insert(
                        dinner,
                        DinnerView { short: d.short, long: text, photo: d.photo, vote: d.vote },
                    ),
                    people: s.people,
                }
            } else {
                s
            }
        },
        CommandView::EditPhoto { user, dinner, photo } => {
            if is_admin(s, user) && s.dinners.dom().contains(dinner) {
                let d = s.dinners[dinner];
                StoreView {
                    dinners: s.dinners.insert(
                        dinner,
                        DinnerView { short: d.short, long: d.long, photo: Some(photo), vote: d.vote },
                    ),
                    people: s.people,
                }
            } else {
                s
            }
        },
        CommandView::DeleteDinner { user, dinner } => {
            if is_admin(s, user) && s.dinners.dom().contains(dinner) {
                StoreView { dinners: s.dinners.remove(dinner), people: s.people }
            } else {
                s
            }
        },
        CommandView::SetAllVotes { user, count } => {
            if is_admin(s, user) {
                StoreView {
                    dinners: s.dinners,
                    people: Map::new(
                        |k: Seq<char>| s.people.dom().contains(k),
                        |k: Seq<char>| Person { votes: count, admin: s.people[k].admin },
                    ),
                }
            } else {
                s
            }
        },
    }
}

impl DatabaseData {
    /// Look a person up and copy them out.
    fn person_of(&self, user: &String) -> (r: Option<Person>)
        requires
            self.inv(),
        ensures
            match r {
                Some(p) => self@.people.dom().contains(user@) && p == self@.people[user@],
                None => !self@.people.dom().contains(user@),
            },
    {
        match self.people.get(user) {
            Some(p) => Some(*p),
            None => None,
        }
    }

    /// Validate one command against the current store and, if its
    /// preconditions and authorization hold, apply its state change; an
    /// invalid command leaves the store untouched and reports nothing.
    pub fn apply(&mut self, cmd: &Command)
        requires
            old(self).inv(),
        ensures
            final(self).inv(),
            final(self)@ == apply_spec(old(self)@, cmd@),
    {
        match cmd {
            Command::CreateUser { name } => {
                if !self.people.contains(name) {
                    self.people.insert(name.clone(), Person { votes: 0, admin: false });
                }
            },
            Command::Vote { user, dinner } => {
                if let Some(p) = self.person_of(user) {
                    let nd: Option<Dinner> = match self.dinners.get(dinner) {
                        Some(d) => {
                            if d.vote.is_none() && (p.votes > 0 || p.admin) {
                                Some(
                                    Dinner {
                                        short: d.short.clone(),
                                        long: d.long.clone(),
                                        photo: clone_photo(&d.photo),
                                        vote: Some(user.clone()),
                                    },
                                )
                            } else {
                                None
                            }
                        },
                        None => None,
                    };
                    if let Some(ndv) = nd {
                        self.dinners.insert(dinner.clone(), ndv);
                        if !p.admin {
                            self.people.insert(
                                user.clone(),
                                Person { votes: p.votes - 1, admin: p.admin },
                            );
                        }
                    }
                }
            },
            Command::Unvote { user, dinner } => {
                if let Some(p) = self.person_of(user) {
                    let nd: Option<Dinner> = match self.dinners.get(dinner) {
                        Some(d) => {
                            let held = match &d.vote {
                                Some(v) => *v == *user,
                                None => false,
                            };
                            if (held || p.admin) && (p.admin || p.votes < 0xffff) {
                                Some(
                                    Dinner {
                                        short: d.short.clone(),
                                        long: d.long.clone(),
                                        photo: clone_photo(&d.photo),
                                        vote: None,
                                    },
                                )
                            } else {
                                None
                            }
                        },
                        None => None,
                    };
                    if let Some(ndv) = nd {
                        self.dinners.insert(dinner.clone(), ndv);
                        if !p.admin {
                            self.people.insert(
                                user.clone(),
                                Person { votes: p.votes + 1, admin: p.admin },
                            );
                        }
                    }
                }
            },
            Command::NewDinner { user, name } => {
                let adm = match self.person_of(user) {
                    Some(p) => p.admin,
                    None => false,
                };
                if adm && !self.dinners.contains(name) {
                    proof {
                        reveal_strlit("-");
                        assert("-"@ =~= seq!['-']);
                    }
                    self.dinners.insert(
                        name.clone(),
                        Dinner {
                            short: "-".to_owned(),
                            long: "-".to_owned(),
                            photo: None,
                            vote: None,
                        },
                    );
                }
            },
            Command::RenameDinner { user, from, to } => {
                let adm = match self.person_of(user) {
                    Some(p) => p.admin,
                    None => false,
                };
                if adm {
                    match self.dinners.remove(from) {
                        Some(d) => {
                            self.dinners.insert(to.clone(), d);
                        },
                        None => {},
                    }
                }
            },
            Command::EditShort { user, dinner, text } => {
                let adm = match self.person_of(user) {
                    Some(p) => p.admin,
                    None => false,
                };
                if adm {
                    let nd: Option<Dinner> = match self.dinners.get(dinner) {
                        Some(d) => Some(
                            Dinner {
                                short: text.clone(),
                                long: d.long.clone(),
                                photo: clone_photo(&d.photo),
                                vote: clone_name_opt(&d.vote),
                            },
                        ),
                        None => None,
                    };
                    if let Some(ndv) = nd {
                        self.dinners.insert(dinner.clone(), ndv);
                    }
                }
            },
            Command::EditLong { user, dinner, text } => {
                let adm = match self.person_of(user) {
                    Some(p) => p.admin,
                    None => false,
                };
                if adm {
                    let nd: Option<Dinner> = match self.dinners.get(dinner) {
                        Some(d) => Some(
                            Dinner {
                                short: d.short.clone(),
                                long: text.clone(),
                                photo: clone_photo(&d.photo),
                                vote: clone_name_opt(&d.vote),
                            },
                        ),
                        None => None,
                    };
                    if let Some(ndv) = nd {
                        self.dinners.insert(dinner.clone(), ndv);
                    }
                }
            },
            Command::EditPhoto { user, dinner, photo } => {
                let adm = match self.person_of(user) {
                    Some(p) => p.admin,
                    None => false,
                };
                if adm {
                    let nd: Option<Dinner> = match self.dinners.get(dinner) {
                        Some(d) => Some(
                            Dinner {
                                short: d.short.clone(),
                                long: d.long.clone(),
                                photo: Some(clone_bytes(photo)),
                                vote: clone_name_opt(&d.vote),
                            },
                        ),
                        None => None,
                    };
                    if let Some(ndv) = nd {
                        self.dinners.insert(dinner.clone(), ndv);
                    }
                }
            },
            Command::DeleteDinner { user, dinner } => {
                let adm = match self.person_of(user) {
                    Some(p) => p.admin,
                    None => false,
                };
                if adm {
                    let _ = self.dinners.remove(dinner);
                }
            },
            Command::SetAllVotes { user, count } => {
                let adm = match self.person_of(user) {
                    Some(p) => p.admin,
                    None => false,
                };
                if adm {
                    let ghost os = self.people.seq_view();
                    let n = self.people.len();
                    let mut i: usize = 0;
                    while i < n
                        invariant
                            self.people.inv(),
                            n == self.people.seq_view().len(),
                            os.len() == n,
                            i <= n,
                            self.dinners == old(self).dinners,
                            distinct_keys(os),
                            forall|j: int|
                                0 <= j < i ==> self.people.seq_view()[j] == (
                                os[j].0,
                                Person { votes: *count, admin: os[j].1.admin },
                            ),
                            forall|j: int| i <= j < n ==> self.people.seq_view()[j] == os[j],
                        decreases n - i,
                    {
                        let adm_j = self.people.at(i).1.admin;
                        self.people.set_at(i, Person { votes: *count, admin: adm_j });
                        i += 1;
                    }
                    proof {
                        let ns = self.people.seq_view();
                        let target = Map::new(
                            |k: Seq<char>| fold_insert(os).dom().contains(k),
                            |k: Seq<char>| Person { votes: *count, admin: fold_insert(os)[k].admin },
                        );
                        assert(distinct_keys(ns)) by {
                            assert forall|x: int, y: int|
                                0 <= x < y < ns.len() implies ns[x].0 != ns[y].0 by {
                                assert(ns[x].0 == os[x].0);
                                assert(ns[y].0 == os[y].0);
                            }
                        }
                        assert forall|k: Seq<char>| #[trigger] fold_insert(ns).dom().contains(k)
                            implies fold_insert(os).dom().contains(k) by {
                            lemma_fold_insert_dom(ns, k);
                            lemma_fold_insert_dom(os, k);
                            let j = choose|j: int| 0 <= j < ns.len() && ns[j].0 == k;
                            assert(os[j].0 == k);
                        }
                        assert forall|k: Seq<char>| #[trigger] fold_insert(os).dom().contains(k)
                            implies fold_insert(ns).dom().contains(k) && fold_insert(ns)[k]
                            == Person { votes: *count, admin: fold_insert(os)[k].admin } by {
                            lemma_fold_insert_dom(ns, k);
                            lemma_fold_insert_dom(os, k);
                            let j = choose|j: int| 0 <= j < os.len() && os[j].0 == k;
                            assert(ns[j].0 == k);
                            lemma_fold_insert_at(os, j);
                            lemma_fold_insert_at(ns, j);
                        }
                        assert(self.people@ =~= target);
                    }
                }
            },
        }
    }
}

} // verus!
