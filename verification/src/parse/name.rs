//! A person as it is read.

use crate::import::utils::{split_by_comma, split_on, texts};
use vstd::prelude::*;

verus! {

/// One line of the names file.
#[derive(Debug)]
pub struct Record {
    pub nconst: String,
    pub primary_name: String,
    pub birth_year: u16,
    pub death_year: u16,
    pub primary_profession: String,
    pub known_for_titles: String,
}

/// The callback, asked about a title with this text, may give this answer.
pub open spec fn answers<F: Fn(&String) -> bool>(is_known: &F, text: Seq<char>, answer: bool) -> bool {
    exists|title: String| #[trigger] call_ensures(*is_known, (&title,), answer) && title@ == text
}

impl Record {
    /// Whether the person is known for a title that the callback knows. The
    /// titles are asked about in the order of the record until one is known.
    pub fn knows_any<F: Fn(&String) -> bool>(&self, is_known: &F) -> (known: bool)
        requires
            forall|title: String| call_requires(*is_known, (&title,)),
        ensures
            known ==> exists|k: int|
                0 <= k < split_on(self.known_for_titles@, ',').len() && answers(
                    is_known,
                    #[trigger] split_on(self.known_for_titles@, ',')[k],
                    true,
                ),
            !known ==> forall|k: int|
                0 <= k < split_on(self.known_for_titles@, ',').len() ==> answers(
                    is_known,
                    #[trigger] split_on(self.known_for_titles@, ',')[k],
                    false,
                ),
    {
        let titles = split_by_comma(self.known_for_titles.as_str());
        let ghost pieces = split_on(self.known_for_titles@, ',');
        let mut at: usize = 0;
        while at < titles.len()
            invariant
                at <= titles@.len(),
                texts(titles@) == pieces,
                pieces == split_on(self.known_for_titles@, ','),
                forall|title: String| call_requires(*is_known, (&title,)),
                forall|k: int| 0 <= k < at ==> answers(is_known, #[trigger] pieces[k], false),
            decreases titles@.len() - at,
        {
            let hit = is_known(&titles[at]);
            proof {
                assert(texts(titles@)[at as int] == titles@[at as int]@);
                assert(call_ensures(*is_known, (&titles@[at as int],), hit));
                assert(answers(is_known, pieces[at as int], hit));
            }
            if hit {
                proof {
                    assert(pieces.len() == titles@.len());
                    assert(answers(is_known, split_on(self.known_for_titles@, ',')[at as int], true));
                }
                return true;
            }
            at = at + 1;
        }
        false
    }
}

} // verus!
