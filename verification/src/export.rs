//! Roundups as Markdown documents.

use crate::catalog::Catalog;
use crate::date::{date_text, Date};
use crate::error::StoreError;
use crate::model::CatalogModel;
use vstd::prelude::*;
use vstd::string::StringExecFns;

verus! {

/// The front matter of the roundup of `date`: title and date between two
/// rules, and a blank line.
pub open spec fn front_matter(date: Date) -> Seq<char> {
    "---\ntitle: \"Reading Roundup, "@ + date_text(date) + "\"\ndate: "@ + date_text(date)
        + "\n---\n\n"@
}

/// The bodies of the entries that the first `n` memberships put into the
/// roundup of `date`, in the order of the memberships, each followed by a
/// blank line.
pub open spec fn bodies_text(c: CatalogModel, date: Date, n: int) -> Seq<char>
    decreases n,
{
    if n <= 0 {
        Seq::empty()
    } else {
        let member = c.members[n - 1];
        let earlier = bodies_text(c, date, n - 1);
        if member.date == date && c.has_id(member.entry) {
            earlier + c.rows[c.index_of_id(member.entry)].entry.body_text + seq!['\n', '\n']
        } else {
            earlier
        }
    }
}

/// The first among the first `n` memberships of `date` whose entry the
/// reading list does not hold: its identifier.
pub open spec fn first_missing(c: CatalogModel, date: Date, n: int) -> Option<int>
    decreases n,
{
    if n <= 0 {
        None
    } else {
        let member = c.members[n - 1];
        match first_missing(c, date, n - 1) {
            Some(id) => Some(id),
            None => if member.date == date && !c.has_id(member.entry) {
                Some(member.entry)
            } else {
                None
            },
        }
    }
}

/// The roundup of `date` as a document: the front matter, then the bodies.
/// Where a membership of the date names no entry there is no document, and
/// the result is that identifier.
pub open spec fn roundup_markdown(c: CatalogModel, date: Date) -> Result<Seq<char>, int> {
    match first_missing(c, date, c.members.len() as int) {
        Some(id) => Err(id),
        None => Ok(front_matter(date) + bodies_text(c, date, c.members.len() as int)),
    }
}

/// A missing entry among the first memberships is the first missing entry
/// among all.
pub proof fn lemma_first_missing_stays(c: CatalogModel, date: Date, n: int, m: int)
    requires
        0 <= n <= m,
        first_missing(c, date, n) is Some,
    ensures
        first_missing(c, date, m) == first_missing(c, date, n),
    decreases m - n,
{
    if n < m {
        lemma_first_missing_stays(c, date, n, m - 1);
    }
}

/// Where every membership names an entry, every roundup has a document.
pub proof fn law_referential_roundups_export(c: CatalogModel, date: Date, n: int)
    requires
        c.referential(),
        n <= c.members.len(),
    ensures
        first_missing(c, date, n) is None,
    decreases n,
{
    if n > 0 {
        law_referential_roundups_export(c, date, n - 1);
    }
}

fn push_front_matter(out: &mut String, date: Date)
    ensures
        final(out)@ == old(out)@ + front_matter(date),
{
    let text = date.text();
    out.append("---\ntitle: \"Reading Roundup, ");
    out.append(text.as_str());
    out.append("\"\ndate: ");
    out.append(text.as_str());
    out.append("\n---\n\n");
    proof {
        assert(out@ =~= old(out)@ + front_matter(date));
    }
}

impl Catalog {
    /// The roundup of `date` as a Markdown document: the front matter, then
    /// the body of each entry that a membership puts into the roundup, in
    /// the order of the memberships, each followed by a blank line. Fails
    /// where a membership of the date names no entry.
    pub fn compose_roundup_markdown(&self, date: Date) -> (r: Result<String, StoreError>)
        requires
            self.wf(),
        ensures
            match r {
                Ok(text) => roundup_markdown(self@, date) == Ok::<Seq<char>, int>(text@),
                Err(e) => exists|id: i64|
                    e == StoreError::MissingEntry(id) && roundup_markdown(self@, date) == Err::<
                        Seq<char>,
                        int,
                    >(id as int),
            },
    {
        let mut out = String::new();
        push_front_matter(&mut out, date);
        let members = self.memberships();
        let rows = self.rows();
        let mut k: usize = 0;
        while k < members.len()
            invariant
                k <= members.len(),
                self.wf(),
                crate::catalog::member_models(members@) == self@.members,
                crate::catalog::row_models(rows@) == self@.rows,
                first_missing(self@, date, k as int) is None,
                out@ == front_matter(date) + bodies_text(self@, date, k as int),
            decreases members.len() - k,
        {
            let member = members[k];
            proof {
                assert(self@.members[k as int] == member@);
            }
            if member.date == date {
                match self.find_id(member.entry) {
                    Some(i) => {
                        proof {
                            assert(self@.rows[i as int].id == member.entry);
                            assert(self@.index_of_id(member.entry as int) == i);
                            assert(self@.rows[i as int] == rows@[i as int]@);
                        }
                        out.append(rows[i].entry.body_text.as_str());
                        out.push('\n');
                        out.push('\n');
                        proof {
                            assert(out@ =~= front_matter(date) + bodies_text(
                                self@,
                                date,
                                k as int + 1,
                            ));
                        }
                    },
                    None => {
                        proof {
                            lemma_first_missing_stays(
                                self@,
                                date,
                                k as int + 1,
                                self@.members.len() as int,
                            );
                        }
                        return Err(StoreError::MissingEntry(member.entry));
                    },
                }
            }
            k += 1;
        }
        Ok(out)
    }
}

} // verus!
