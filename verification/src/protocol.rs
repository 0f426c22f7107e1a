//! The wire protocol: one request per body, the opcode first, every field
//! separated by a single backslash. The decoder fails closed: a body whose
//! opcode or field count is wrong decodes to `Malformed`, which is answered
//! with an empty response and causes no state change. Read-only queries are
//! answered directly from the store; everything else becomes a `Command`.

use vstd::prelude::*;
use vstd::string::{StrSliceExecFns, StringExecFns};
use vstd::utf8::encode_utf8;
use crate::command::{Command, CommandView};
use crate::digits::{all_digits, dec_of, digits_val, parse_u16, u16_to_string};
use crate::store::{DatabaseData, DinnerView, Person};

verus! {

/// Index of the first field separator in `s`, or -1 if there is none.
pub open spec fn first_sep(s: Seq<char>) -> int
    decreases s.len(),
{
    if s.len() == 0 {
        -1
    } else if s[0] == '\\' {
        0
    } else {
        let r = first_sep(s.drop_first());
        if r < 0 {
            -1
        } else {
            r + 1
        }
    }
}

pub proof fn lemma_first_sep(s: Seq<char>)
    ensures
        first_sep(s) >= 0 ==> first_sep(s) < s.len() && s[first_sep(s)] == '\\' && forall|j: int|
            0 <= j < first_sep(s) ==> s[j] != '\\',
        first_sep(s) < 0 ==> forall|j: int| 0 <= j < s.len() ==> s[j] != '\\',
    decreases s.len(),
{
    if s.len() > 0 && s[0] != '\\' {
        lemma_first_sep(s.drop_first());
        let r = first_sep(s.drop_first());
        if r >= 0 {
            assert forall|j: int| 0 <= j < r + 1 implies s[j] != '\\' by {
                if j > 0 {
                    assert(s.drop_first()[j - 1] != '\\');
                }
            }
        } else {
            assert forall|j: int| 0 <= j < s.len() implies s[j] != '\\' by {
                if j > 0 {
                    assert(s.drop_first()[j - 1] != '\\');
                }
            }
        }
    }
}

pub proof fn lemma_first_sep_at(s: Seq<char>, i: int)
    requires
        0 <= i < s.len(),
        s[i] == '\\',
        forall|j: int| 0 <= j < i ==> s[j] != '\\',
    ensures
        first_sep(s) == i,
    decreases i,
{
    if i > 0 {
        assert(s[0] != '\\');
        assert(s.drop_first()[i - 1] == '\\');
        assert forall|j: int| 0 <= j < i - 1 implies s.drop_first()[j] != '\\' by {
            assert(s[j + 1] != '\\');
        }
        lemma_first_sep_at(s.drop_first(), i - 1);
    }
}

pub proof fn lemma_first_sep_none(s: Seq<char>)
    requires
        forall|j: int| 0 <= j < s.len() ==> s[j] != '\\',
    ensures
        first_sep(s) < 0,
    decreases s.len(),
{
    if s.len() > 0 {
        assert forall|j: int| 0 <= j < s.drop_first().len() implies s.drop_first()[j] != '\\' by {
            assert(s[j + 1] != '\\');
        }
        lemma_first_sep_none(s.drop_first());
    }
}

/// `s` split at every separator; always one piece more than separators.
pub open spec fn split_fields(s: Seq<char>) -> Seq<Seq<char>>
    decreases s.len(),
{
    let i = first_sep(s);
    if i < 0 || i >= s.len() {
        seq![s]
    } else {
        seq![s.take(i)] + split_fields(s.skip(i + 1))
    }
}

pub proof fn lemma_split_fields_len(s: Seq<char>)
    ensures
        split_fields(s).len() >= 1,
    decreases s.len(),
{
    let i = first_sep(s);
    if !(i < 0 || i >= s.len()) {
        lemma_split_fields_len(s.skip(i + 1));
    }
}

/// Position of the first separator, scanned left to right.
fn find_sep(s: &str) -> (r: Option<usize>)
    ensures
        match r {
            Some(i) => first_sep(s@) == i as int,
            None => first_sep(s@) < 0,
        },
{
    let n = s.unicode_len();
    let mut i: usize = 0;
    while i < n
        invariant
            n == s@.len(),
            i <= n,
            forall|j: int| 0 <= j < i ==> s@[j] != '\\',
        decreases n - i,
    {
        if s.get_char(i) == '\\' {
            proof {
                lemma_first_sep_at(s@, i as int);
            }
            return Some(i);
        }
        i += 1;
    }
    proof {
        lemma_first_sep_none(s@);
    }
    None
}

/// Split the body into its fields at each separator.
fn split_str(s: &str) -> (r: Vec<String>)
    ensures
        r@.map_values(|t: String| t@) == split_fields(s@),
    decreases s@.len(),
{
    match find_sep(s) {
        None => {
            let mut v: Vec<String> = Vec::new();
            v.push(s.to_owned());
            proof {
                assert(v@.map_values(|t: String| t@) =~= seq![s@]);
            }
            v
        },
        Some(i) => {
            proof {
                lemma_first_sep(s@);
            }
            let n = s.unicode_len();
            let head = s.substring_char(0, i).to_owned();
            let rest = s.substring_char(i + 1, n);
            proof {
                assert(head@ =~= s@.take(i as int));
                assert(rest@ =~= s@.skip(i + 1 as int));
            }
            let mut v = split_str(rest);
            v.insert(0, head);
            proof {
                assert(v@.map_values(|t: String| t@) =~= seq![s@.take(i as int)] + split_fields(
                    s@.skip(i + 1 as int),
                ));
            }
            v
        },
    }
}

/// A decoded request: a read-only query, a mutating command, or a body that
/// does not follow the protocol.
pub enum Request {
    ListDinners,
    GetDinner { name: String },
    GetPerson { name: String },
    Mutate { command: Command },
    Malformed,
}

/// The abstract content of a `Request`.
pub enum RequestView {
    ListDinners,
    GetDinner { name: Seq<char> },
    GetPerson { name: Seq<char> },
    Mutate { command: CommandView },
    Malformed,
}

impl View for Request {
    type V = RequestView;

    open spec fn view(&self) -> RequestView {
        match self {
            Request::ListDinners => RequestView::ListDinners,
            Request::GetDinner { name } => RequestView::GetDinner { name: name@ },
            Request::GetPerson { name } => RequestView::GetPerson { name: name@ },
            Request::Mutate { command } => RequestView::Mutate { command: command@ },
            Request::Malformed => RequestView::Malformed,
        }
    }
}

/// What a body decodes to: the opcode is the first field and must be one
/// character; the field count must match the opcode exactly.
pub open spec fn decode_spec(s: Seq<char>) -> RequestView {
    let parts = split_fields(s);
    let n = parts.len();
    if parts[0].len() != 1 {
        RequestView::Malformed
    } else {
        let op = parts[0][0];
        if op == 'l' && n == 1 {
            RequestView::ListDinners
        } else if op == 'g' && n == 2 {
            RequestView::GetDinner { name: parts[1] }
        } else if op == 'h' && n == 2 {
            RequestView::GetPerson { name: parts[1] }
        } else if op == 'c' && n == 2 {
            RequestView::Mutate { command: CommandView::CreateUser { name: parts[1] } }
        } else if op == 'v' && n == 3 {
            RequestView::Mutate {
                command: CommandView::Vote { user: parts[1], dinner: parts[2] },
            }
        } else if op == 'u' && n == 3 {
            RequestView::Mutate {
                command: CommandView::Unvote { user: parts[1], dinner: parts[2] },
            }
        } else if op == 'n' && n == 3 {
            RequestView::Mutate {
                command: CommandView::NewDinner { user: parts[1], name: parts[2] },
            }
        } else if op == 's' && n == 4 {
            RequestView::Mutate {
                command: CommandView::RenameDinner { user: parts[1], from: parts[2], to: parts[3] },
            }
        } else if op == 't' && n == 4 {
            RequestView::Mutate {
                command: CommandView::EditShort { user: parts[1], dinner: parts[2], text: parts[3] },
            }
        } else if op == 'm' && n == 4 {
            RequestView::Mutate {
                command: CommandView::EditLong { user: parts[1], dinner: parts[2], text: parts[3] },
            }
        } else if op == 'p' && n == 4 {
            RequestView::Mutate {
                command: CommandView::EditPhoto {
                    user: parts[1],
                    dinner: parts[2],
                    photo: encode_utf8(parts[3]),
                },
            }
        } else if op == 'd' && n == 3 {
            RequestView::Mutate {
                command: CommandView::DeleteDinner { user: parts[1], dinner: parts[2] },
            }
        } else if op == 'z' && n == 3 {
            if parts[2].len() > 0 && all_digits(parts[2]) && digits_val(parts[2]) <= 0xffff {
                RequestView::Mutate {
                    command: CommandView::SetAllVotes {
                        user: parts[1],
                        count: digits_val(parts[2]) as u16,
                    },
                }
            } else {
                RequestView::Malformed
            }
        } else {
            RequestView::Malformed
        }
    }
}

/// Decode one request body.
pub fn decode(body: &str) -> (r: Request)
    ensures
        r@ == decode_spec(body@),
{
    proof {
        lemma_split_fields_len(body@);
    }
    let parts = split_str(body);
    let n = parts.len();
    proof {
        assert(parts@.map_values(|t: String| t@).len() == n);
        assert(parts@[0]@ == split_fields(body@)[0]);
    }
    if parts[0].as_str().unicode_len() != 1 {
        return Request::Malformed;
    }
    let op = parts[0].as_str().get_char(0);
    if op == 'l' && n == 1 {
        Request::ListDinners
    } else if op == 'g' && n == 2 {
        Request::GetDinner { name: parts[1].clone() }
    } else if op == 'h' && n == 2 {
        Request::GetPerson { name: parts[1].clone() }
    } else if op == 'c' && n == 2 {
        Request::Mutate { command: Command::CreateUser { name: parts[1].clone() } }
    } else if op == 'v' && n == 3 {
        Request::Mutate {
            command: Command::Vote { user: parts[1].clone(), dinner: parts[2].clone() },
        }
    } else if op == 'u' && n == 3 {
        Request::Mutate {
            command: Command::Unvote { user: parts[1].clone(), dinner: parts[2].clone() },
        }
    } else if op == 'n' && n == 3 {
        Request::Mutate {
            command: Command::NewDinner { user: parts[1].clone(), name: parts[2].clone() },
        }
    } else if op == 's' && n == 4 {
        Request::Mutate {
            command: Command::RenameDinner {
                user: parts[1].clone(),
                from: parts[2].clone(),
                to: parts[3].clone(),
            },
        }
    } else if op == 't' && n == 4 {
        Request::Mutate {
            command: Command::EditShort {
                user: parts[1].clone(),
                dinner: parts[2].clone(),
                text: parts[3].clone(),
            },
        }
    } else if op == 'm' && n == 4 {
        Request::Mutate {
            command: Command::EditLong {
                user: parts[1].clone(),
                dinner: parts[2].clone(),
                text: parts[3].clone(),
            },
        }
    } else if op == 'p' && n == 4 {
        Request::Mutate {
            command: Command::EditPhoto {
                user: parts[1].clone(),
                dinner: parts[2].clone(),
                photo: parts[3].as_str().as_bytes_vec(),
            },
        }
    } else if op == 'd' && n == 3 {
        Request::Mutate {
            command: Command::DeleteDinner { user: parts[1].clone(), dinner: parts[2].clone() },
        }
    } else if op == 'z' && n == 3 {
        match parse_u16(parts[2].as_str()) {
            Some(count) => Request::Mutate {
                command: Command::SetAllVotes { user: parts[1].clone(), count },
            },
            None => Request::Malformed,
        }
    } else {
        Request::Malformed
    }
}

/// One line of the listing: name, short text, and the voter if one is
/// recorded.
pub open spec fn list_line(e: (Seq<char>, DinnerView)) -> Seq<char> {
    e.0 + seq!['\\'] + e.1.short + (match e.1.vote {
        Some(u) => seq!['\\'] + u,
        None => Seq::<char>::empty(),
    })
}

/// The listing of all dinners, one line each in stored order, joined by
/// newlines.
pub open spec fn list_body(s: Seq<(Seq<char>, DinnerView)>) -> Seq<char>
    decreases s.len(),
{
    if s.len() == 0 {
        Seq::<char>::empty()
    } else {
        list_body(s.drop_last()) + (if s.len() == 1 {
            Seq::<char>::empty()
        } else {
            seq!['\n']
        }) + list_line(s.last())
    }
}

/// The detail text for one dinner; empty when the name is unknown.
pub open spec fn dinner_details(m: Map<Seq<char>, DinnerView>, name: Seq<char>) -> Seq<char> {
    if m.dom().contains(name) {
        m[name].short + seq!['\r'] + m[name].long + seq!['\r', '\r']
    } else {
        Seq::<char>::empty()
    }
}

pub open spec fn admin_text(b: bool) -> Seq<char> {
    if b {
        seq!['T', 'R', 'U', 'E']
    } else {
        seq!['F', 'A', 'L', 'S', 'E']
    }
}

/// The remaining votes and admin flag of a person; empty when the name is
/// unknown.
pub open spec fn person_details(m: Map<Seq<char>, Person>, name: Seq<char>) -> Seq<char> {
    if m.dom().contains(name) {
        dec_of(m[name].votes as nat) + seq!['\\'] + admin_text(m[name].admin)
    } else {
        Seq::<char>::empty()
    }
}

/// List every dinner: its name, short text, and current voter if any.
pub fn list_dinners(db: &DatabaseData) -> (r: String)
    ensures
        r@ == list_body(db.dinners.seq_view()),
{
    let mut out = String::new();
    let n = db.dinners.len();
    let mut i: usize = 0;
    while i < n
        invariant
            n == db.dinners.seq_view().len(),
            i <= n,
            out@ == list_body(db.dinners.seq_view().take(i as int)),
        decreases n - i,
    {
        proof {
            reveal_strlit("\n");
            reveal_strlit("\\");
        }
        if i > 0 {
            out.append("\n");
        }
        let e = db.dinners.at(i);
        out.append(e.0.as_str());
        out.append("\\");
        out.append(e.1.short.as_str());
        if let Some(u) = &e.1.vote {
            out.append("\\");
            out.append(u.as_str());
        }
        proof {
            let sv = db.dinners.seq_view();
            assert(sv.take(i + 1 as int).drop_last() =~= sv.take(i as int));
            assert(sv.take(i + 1 as int).last() == sv[i as int]);
            assert(out@ =~= list_body(sv.take(i + 1 as int)));
        }
        i += 1;
    }
    proof {
        assert(db.dinners.seq_view().take(n as int) =~= db.dinners.seq_view());
    }
    out
}

/// The short and long text of one dinner.
pub fn get_dinner(db: &DatabaseData, name: &String) -> (r: String)
    requires
        db.inv(),
    ensures
        r@ == dinner_details(db@.dinners, name@),
{
    proof {
        reveal_strlit("\r");
        reveal_strlit("\r\r");
    }
    match db.dinners.get(name) {
        Some(d) => {
            let mut out = String::new();
            out.append(d.short.as_str());
            out.append("\r");
            out.append(d.long.as_str());
            out.append("\r\r");
            proof {
                assert(out@ =~= dinner_details(db@.dinners, name@));
            }
            out
        },
        None => String::new(),
    }
}

/// The remaining votes and admin flag of one person.
pub fn get_person(db: &DatabaseData, name: &String) -> (r: String)
    requires
        db.inv(),
    ensures
        r@ == person_details(db@.people, name@),
{
    proof {
        reveal_strlit("\\");
        reveal_strlit("TRUE");
        reveal_strlit("FALSE");
    }
    match db.people.get(name) {
        Some(p) => {
            let mut out = u16_to_string(p.votes);
            out.append("\\");
            if p.admin {
                out.append("TRUE");
            } else {
                out.append("FALSE");
            }
            proof {
                assert(out@ =~= person_details(db@.people, name@));
            }
            out
        },
        None => String::new(),
    }
}

/// The immediate response to a decoded request. Queries are answered from
/// the store; a mutating command is answered with an empty body before it is
/// applied (the requester never waits for, or learns of, its effect); a
/// malformed body is answered with an empty body.
pub open spec fn response_spec(db: DatabaseData, r: RequestView) -> Seq<char> {
    match r {
        RequestView::ListDinners => list_body(db.dinners.seq_view()),
        RequestView::GetDinner { name } => dinner_details(db@.dinners, name),
        RequestView::GetPerson { name } => person_details(db@.people, name),
        RequestView::Mutate { .. } => Seq::<char>::empty(),
        RequestView::Malformed => Seq::<char>::empty(),
    }
}

/// Answer one decoded request from the store.
pub fn respond(db: &DatabaseData, req: &Request) -> (r: String)
    requires
        db.inv(),
    ensures
        r@ == response_spec(*db, req@),
{
    match req {
        Request::ListDinners => list_dinners(db),
        Request::GetDinner { name } => get_dinner(db, name),
        Request::GetPerson { name } => get_person(db, name),
        Request::Mutate { .. } => String::new(),
        Request::Malformed => String::new(),
    }
}

} // verus!
