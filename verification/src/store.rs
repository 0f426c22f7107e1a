//! The in-memory data model: dinner options and people, each keyed by name,
//! plus the snapshot form in which the store is persisted and reloaded.

use vstd::prelude::*;
use crate::table::{Table, distinct_keys, fold_insert, pair_views};

verus! {

/// The abstract content of an optional photo payload.
pub open spec fn bytes_opt_view(p: Option<Vec<u8>>) -> Option<Seq<u8>> {
    match p {
        Some(v) => Some(v@),
        None => None,
    }
}

/// The abstract content of an optional name.
pub open spec fn name_opt_view(p: Option<String>) -> Option<Seq<char>> {
    match p {
        Some(v) => Some(v@),
        None => None,
    }
}

/// A dinner option: descriptive text, an optional photo, and the single vote
/// slot holding the name of the person whose vote it is, if anyone's.
pub struct Dinner {
    pub short: String,
    pub long: String,
    pub photo: Option<Vec<u8>>,
    pub vote: Option<String>,
}

/// The abstract content of a `Dinner`.
pub struct DinnerView {
    pub short: Seq<char>,
    pub long: Seq<char>,
    pub photo: Option<Seq<u8>>,
    pub vote: Option<Seq<char>>,
}

impl View for Dinner {
    type V = DinnerView;

    open spec fn view(&self) -> DinnerView {
        DinnerView {
            short: self.short@,
            long: self.long@,
            photo: bytes_opt_view(self.photo),
            vote: name_opt_view(self.vote),
        }
    }
}

/// A person: their remaining vote count and the admin flag. The flag is set
/// only by out-of-band provisioning (a snapshot edit), never by a command.
#[derive(Clone, Copy, PartialEq, Eq, Structural, Debug)]
pub struct Person {
    pub votes: u16,
    pub admin: bool,
}

impl View for Person {
    type V = Person;

    open spec fn view(&self) -> Person {
        *self
    }
}

/// The store: dinners and people. It is mutated only through `apply`, one
/// command at a time; queries read it through shared references.
pub struct DatabaseData {
    pub dinners: Table<Dinner>,
    pub people: Table<Person>,
}

/// The abstract content of the store.
pub struct StoreView {
    pub dinners: Map<Seq<char>, DinnerView>,
    pub people: Map<Seq<char>, Person>,
}

impl View for DatabaseData {
    type V = StoreView;

    open spec fn view(&self) -> StoreView {
        StoreView { dinners: self.dinners@, people: self.people@ }
    }
}

/// Copy a byte vector element by element.
pub fn clone_bytes(v: &Vec<u8>) -> (r: Vec<u8>)
    ensures
        r@ == v@,
{
    let mut r: Vec<u8> = Vec::new();
    let n = v.len();
    let mut i: usize = 0;
    while i < n
        invariant
            n == v@.len(),
            i <= n,
            r@ =~= v@.subrange(0, i as int),
        decreases n - i,
    {
        r.push(v[i]);
        i += 1;
    }
    proof {
        assert(r@ =~= v@);
    }
    r
}

/// Copy an optional photo payload.
pub fn clone_photo(p: &Option<Vec<u8>>) -> (r: Option<Vec<u8>>)
    ensures
        bytes_opt_view(r) == bytes_opt_view(*p),
{
    match p {
        Some(v) => Some(clone_bytes(v)),
        None => None,
    }
}

/// Copy an optional name.
pub fn clone_name_opt(p: &Option<String>) -> (r: Option<String>)
    ensures
        name_opt_view(r) == name_opt_view(*p),
{
    match p {
        Some(v) => Some(v.clone()),
        None => None,
    }
}

/// Copy a dinner; the copy has the same abstract content.
pub fn clone_dinner(d: &Dinner) -> (r: Dinner)
    ensures
        r@ == d@,
{
    Dinner {
        short: d.short.clone(),
        long: d.long.clone(),
        photo: clone_photo(&d.photo),
        vote: clone_name_opt(&d.vote),
    }
}

/// One dinner entry of a snapshot.
pub struct DinnerKV {
    pub key: String,
    pub value: Dinner,
}

/// One person entry of a snapshot.
pub struct PersonKV {
    pub key: String,
    pub value: Person,
}

/// The snapshot form of the store: plain entry lists, the shape that is
/// serialized to the durable file and read back at startup.
pub struct DatabaseDataSerde {
    pub dinners: Vec<DinnerKV>,
    pub people: Vec<PersonKV>,
}

pub open spec fn dinner_kv_views(s: Seq<DinnerKV>) -> Seq<(Seq<char>, DinnerView)> {
    s.map_values(|kv: DinnerKV| (kv.key@, kv.value@))
}

pub open spec fn person_kv_views(s: Seq<PersonKV>) -> Seq<(Seq<char>, Person)> {
    s.map_values(|kv: PersonKV| (kv.key@, kv.value@))
}

impl DatabaseData {
    /// Both tables hold pairwise-distinct keys.
    pub open spec fn inv(&self) -> bool {
        self.dinners.inv() && self.people.inv()
    }

    /// An empty store.
    pub fn new() -> (r: Self)
        ensures
            r.inv(),
            r@.dinners == Map::<Seq<char>, DinnerView>::empty(),
            r@.people == Map::<Seq<char>, Person>::empty(),
            r.dinners.seq_view().len() == 0,
            r.people.seq_view().len() == 0,
    {
        DatabaseData { dinners: Table::new(), people: Table::new() }
    }

    /// Hydrate a store from a snapshot. Entries are inserted in order; if a
    /// key repeats, the later entry wins, and a snapshot with distinct keys
    /// reproduces its entry list exactly.
    pub fn from_serde(database_data: DatabaseDataSerde) -> (r: Self)
        ensures
            r.inv(),
            r@.dinners == fold_insert(dinner_kv_views(database_data.dinners@)),
            r@.people == fold_insert(person_kv_views(database_data.people@)),
            distinct_keys(dinner_kv_views(database_data.dinners@)) ==> r.dinners.seq_view()
                == dinner_kv_views(database_data.dinners@),
            distinct_keys(person_kv_views(database_data.people@)) ==> r.people.seq_view()
                == person_kv_views(database_data.people@),
    {
        let DatabaseDataSerde { dinners: mut dlist, people: mut plist } = database_data;
        let ghost dviews = dinner_kv_views(dlist@);
        let ghost pviews = person_kv_views(plist@);

        let mut dpairs: Vec<(String, Dinner)> = Vec::new();
        while dlist.len() > 0
            invariant
                pair_views(dpairs@) + dinner_kv_views(dlist@)
                    =~= dviews,
            decreases dlist@.len(),
        {
            let ghost pre = pair_views(dpairs@);
            let kv = dlist.remove(0);
            dpairs.push((kv.key, kv.value));
            proof {
                assert(pair_views(dpairs@) =~= pre.push(
                    (kv.key@, kv.value@),
                ));
                assert(pre.push((kv.key@, kv.value@)) + dinner_kv_views(dlist@) =~= dviews);
            }
        }
        proof {
            assert(pair_views(dpairs@) =~= dviews);
        }

        let mut ppairs: Vec<(String, Person)> = Vec::new();
        while plist.len() > 0
            invariant
                pair_views(ppairs@) + person_kv_views(plist@)
                    =~= pviews,
            decreases plist@.len(),
        {
            let ghost pre = pair_views(ppairs@);
            let kv = plist.remove(0);
            ppairs.push((kv.key, kv.value));
            proof {
                assert(pair_views(ppairs@) =~= pre.push(
                    (kv.key@, kv.value@),
                ));
                assert(pre.push((kv.key@, kv.value@)) + person_kv_views(plist@) =~= pviews);
            }
        }
        proof {
            assert(pair_views(ppairs@) =~= pviews);
        }

        DatabaseData {
            dinners: Table::from_entries(dpairs),
            people: Table::from_entries(ppairs),
        }
    }

    /// Snapshot the store: the entry lists in their stored order.
    pub fn to_serde(&self) -> (r: DatabaseDataSerde)
        ensures
            dinner_kv_views(r.dinners@) == self.dinners.seq_view(),
            person_kv_views(r.people@) == self.people.seq_view(),
    {
        let mut dlist: Vec<DinnerKV> = Vec::new();
        let dn = self.dinners.len();
        let mut i: usize = 0;
        while i < dn
            invariant
                dn == self.dinners.seq_view().len(),
                i <= dn,
                dinner_kv_views(dlist@) =~= self.dinners.seq_view().subrange(0, i as int),
            decreases dn - i,
        {
            let ghost pre = dinner_kv_views(dlist@);
            let e = self.dinners.at(i);
            dlist.push(DinnerKV { key: e.0.clone(), value: clone_dinner(&e.1) });
            proof {
                assert(dinner_kv_views(dlist@) =~= pre.push(self.dinners.seq_view()[i as int]));
                assert(dinner_kv_views(dlist@) =~= self.dinners.seq_view().subrange(
                    0,
                    i + 1 as int,
                ));
            }
            i += 1;
        }
        proof {
            assert(dinner_kv_views(dlist@) =~= self.dinners.seq_view());
        }

        let mut plist: Vec<PersonKV> = Vec::new();
        let pn = self.people.len();
        let mut j: usize = 0;
        while j < pn
            invariant
                pn == self.people.seq_view().len(),
                j <= pn,
                person_kv_views(plist@) =~= self.people.seq_view().subrange(0, j as int),
            decreases pn - j,
        {
            let ghost pre = person_kv_views(plist@);
            let e = self.people.at(j);
            plist.push(PersonKV { key: e.0.clone(), value: e.1 });
            proof {
                assert(person_kv_views(plist@) =~= pre.push(self.people.seq_view()[j as int]));
                assert(person_kv_views(plist@) =~= self.people.seq_view().subrange(
                    0,
                    j + 1 as int,
                ));
            }
            j += 1;
        }
        proof {
            assert(person_kv_views(plist@) =~= self.people.seq_view());
        }

        DatabaseDataSerde { dinners: dlist, people: plist }
    }
}

} // verus!
