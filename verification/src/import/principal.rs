//! A principal of a title as it is stored.

use crate::import::utils::{decimal_string, decimal_text, Row};
use crate::parse::principal::Record;
use vstd::prelude::*;

verus! {

/// A principal: who took which part in which title.
#[derive(Debug, Clone)]
pub struct TitlePrincipal {
    pub tconst: String,
    pub ordering: u16,
    pub nconst: String,
    pub category: String,
    pub job: Option<String>,
    pub characters: Vec<String>,
}

impl Row for TitlePrincipal {
    /// The title, the position and the person, joined by hyphens.
    open spec fn spec_id(&self) -> Seq<char> {
        self.tconst@ + seq!['-'] + decimal_text(self.ordering as nat) + seq!['-'] + self.nconst@
    }

    fn get_id(&self) -> (id: String) {
        proof {
            reveal_strlit("-");
            assert("-"@ =~= seq!['-']);
        }
        let id = self.tconst.clone();
        let id = id.concat("-");
        let id = id.concat(decimal_string(self.ordering).as_str());
        let id = id.concat("-");
        id.concat(self.nconst.as_str())
    }
}

impl From<Record> for TitlePrincipal {
    /// The principal that a record describes: every field as it is.
    fn from(v: Record) -> (principal: Self)
        ensures
            principal.tconst == v.tconst,
            principal.ordering == v.ordering,
            principal.nconst == v.nconst,
            principal.category == v.category,
            principal.job == v.job,
            principal.characters == v.characters,
    {
        TitlePrincipal {
            tconst: v.tconst,
            ordering: v.ordering,
            nconst: v.nconst,
            category: v.category,
            job: v.job,
            characters: v.characters,
        }
    }
}

impl vstd::std_specs::convert::FromSpecImpl<Record> for TitlePrincipal {
    open spec fn obeys_from_spec() -> bool {
        true
    }

    open spec fn from_spec(v: Record) -> Self {
        TitlePrincipal {
            tconst: v.tconst,
            ordering: v.ordering,
            nconst: v.nconst,
            category: v.category,
            job: v.job,
            characters: v.characters,
        }
    }
}

/// The statement that relates a title to a principal of it, with the
/// principal's fields as content.
pub open spec fn principal_text(tconst: Seq<char>, nconst: Seq<char>, content: Seq<char>) -> Seq<char> {
    "RELATE title:"@ + tconst + " -> has_principal -> name:"@ + nconst + " CONTENT "@ + content + ";"@
}

impl TitlePrincipal {
    /// The statement that relates the title to this principal; `content` is
    /// the principal written out for the store.
    pub fn relate_statement(&self, content: &str) -> (statement: String)
        ensures
            statement@ == principal_text(self.tconst@, self.nconst@, content@),
    {
        let out = "RELATE title:".to_owned();
        let out = out.concat(self.tconst.as_str());
        let out = out.concat(" -> has_principal -> name:");
        let out = out.concat(self.nconst.as_str());
        let out = out.concat(" CONTENT ");
        let out = out.concat(content);
        out.concat(";")
    }
}

} // verus!
