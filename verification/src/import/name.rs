//! A person as it is stored.

use crate::import::utils::{split_by_comma, split_on, texts, Row};
use crate::parse::name::Record;
use vstd::prelude::*;

verus! {

/// A person: what the record holds, with the professions and the titles the
/// person is known for listed one by one.
#[derive(Debug, Clone)]
pub struct BasicName {
    pub nconst: String,
    pub primary_name: String,
    pub birth_year: u16,
    pub death_year: u16,
    pub primary_profession: Vec<String>,
    pub known_for_titles: Vec<String>,
}

impl Row for BasicName {
    open spec fn spec_id(&self) -> Seq<char> {
        self.nconst@
    }

    fn get_id(&self) -> (id: String) {
        self.nconst.clone()
    }
}

impl From<Record> for BasicName {
    /// The person that a record describes: every field as it is, and the two
    /// lists split at the commas.
    fn from(v: Record) -> (name: Self)
        ensures
            name.nconst == v.nconst,
            name.primary_name == v.primary_name,
            name.birth_year == v.birth_year,
            name.death_year == v.death_year,
            texts(name.primary_profession@) == split_on(v.primary_profession@, ','),
            texts(name.known_for_titles@) == split_on(v.known_for_titles@, ','),
    {
        let primary_profession = split_by_comma(v.primary_profession.as_str());
        let known_for_titles = split_by_comma(v.known_for_titles.as_str());
        BasicName {
            nconst: v.nconst,
            primary_name: v.primary_name,
            birth_year: v.birth_year,
            death_year: v.death_year,
            primary_profession,
            known_for_titles,
        }
    }
}

/// What the conversion yields is stated where it is made: the lists are new
/// values that no specification can name, so nothing is said of it here.
impl vstd::std_specs::convert::FromSpecImpl<Record> for BasicName {
    open spec fn obeys_from_spec() -> bool {
        false
    }

    open spec fn from_spec(v: Record) -> Self {
        arbitrary()
    }
}

/// The statement that relates a person to a title the person is known for.
pub open spec fn known_for_text(nconst: Seq<char>, title: Seq<char>) -> Seq<char> {
    "RELATE name:"@ + nconst + " -> known_for -> title:"@ + title + ";"@
}

/// The statements of the first `n` titles, one to a line.
pub open spec fn known_for_lines(nconst: Seq<char>, titles: Seq<Seq<char>>, n: int) -> Seq<char>
    decreases n,
{
    if n <= 0 {
        Seq::empty()
    } else if n == 1 {
        known_for_text(nconst, titles[0])
    } else {
        known_for_lines(nconst, titles, n - 1) + "\n"@ + known_for_text(nconst, titles[n - 1])
    }
}

impl BasicName {
    /// The statements that relate the person to each title the person is
    /// known for, one to a line; nothing for a person with no such title.
    pub fn known_for_statements(&self) -> (statements: Option<String>)
        ensures
            self.known_for_titles@.len() == 0 ==> statements.is_none(),
            self.known_for_titles@.len() > 0 ==> statements.is_some() && statements.unwrap()@ == known_for_lines(
                self.nconst@,
                texts(self.known_for_titles@),
                self.known_for_titles@.len() as int,
            ),
    {
        if self.known_for_titles.len() == 0 {
            return None;
        }
        let mut out = String::new();
        let mut at: usize = 0;
        while at < self.known_for_titles.len()
            invariant
                at <= self.known_for_titles@.len(),
                out@ == known_for_lines(self.nconst@, texts(self.known_for_titles@), at as int),
            decreases self.known_for_titles@.len() - at,
        {
            if at > 0 {
                out = out.concat("\n");
            }
            out = out.concat("RELATE name:");
            out = out.concat(self.nconst.as_str());
            out = out.concat(" -> known_for -> title:");
            out = out.concat(self.known_for_titles[at].as_str());
            out = out.concat(";");
            proof {
                let titles = texts(self.known_for_titles@);
                assert(titles[at as int] == self.known_for_titles@[at as int]@);
                let line = known_for_text(self.nconst@, titles[at as int]);
                if at == 0 {
                    assert(out@ =~= line);
                } else {
                    assert(out@ =~= known_for_lines(self.nconst@, titles, at as int) + "\n"@ + line);
                }
            }
            at = at + 1;
        }
        Some(out)
    }
}

} // verus!
