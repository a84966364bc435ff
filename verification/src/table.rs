//! The tag table: the per-document registry of tag names created so far.
//! A tag's rendering and serialization behaviour is derived purely from
//! its name's syntax, so creation is idempotent and has no effect beyond
//! table growth.

use vstd::prelude::*;
use crate::chars::{eq_chars, view_strs, lemma_view_strs_props};
use crate::tag::{Tag, tag_of_name, tag_from_name};
use crate::doc::dup_chars;

verus! {

broadcast use lemma_view_strs_props;

/// The registry of interned tag names.
pub struct TagTable {
    names: Vec<Vec<char>>,
}

impl View for TagTable {
    type V = Seq<Seq<char>>;

    closed spec fn view(&self) -> Seq<Seq<char>> {
        view_strs(self.names@)
    }
}

/// Whether one of the stored names equals `name`.
fn table_contains(names: &Vec<Vec<char>>, name: &Vec<char>) -> (r: bool)
    ensures
        r == view_strs(names@).contains(name@),
{
    let mut i: usize = 0;
    while i < names.len()
        invariant
            i <= names@.len(),
            forall|j: int| 0 <= j < i ==> view_strs(names@)[j] != name@,
        decreases names@.len() - i,
    {
        if eq_chars(&names[i], name) {
            proof {
                assert(view_strs(names@)[i as int] == name@);
            }
            return true;
        }
        i += 1;
    }
    false
}

impl TagTable {
    /// A fresh, empty table.
    pub fn new() -> (r: TagTable)
        ensures
            r@ == Seq::<Seq<char>>::empty(),
    {
        let r = TagTable { names: Vec::new() };
        proof {
            assert(r@ =~= Seq::<Seq<char>>::empty());
        }
        r
    }

    /// The number of names created so far.
    pub fn count(&self) -> (r: usize)
        ensures
            r == self@.len(),
    {
        self.names.len()
    }

    /// The tag a name denotes, interning the name on first use; the
    /// result depends on the name alone, so the call is idempotent.
    pub fn get_or_create(&mut self, name: &Vec<char>) -> (t: Tag)
        ensures
            t@ == tag_of_name(name@),
            final(self)@ == if old(self)@.contains(name@) {
                old(self)@
            } else {
                old(self)@.push(name@)
            },
    {
        if !table_contains(&self.names, name) {
            let ghost pre = view_strs(self.names@);
            self.names.push(dup_chars(name));
            proof {
                assert(view_strs(self.names@) =~= pre.push(name@));
            }
        }
        tag_from_name(name)
    }

    /// The tag a name denotes, if the name has been created.
    pub fn lookup(&self, name: &Vec<char>) -> (r: Option<Tag>)
        ensures
            match r {
                Some(t) => self@.contains(name@) && t@ == tag_of_name(name@),
                None => !self@.contains(name@),
            },
    {
        if table_contains(&self.names, name) {
            Some(tag_from_name(name))
        } else {
            None
        }
    }
}

} // verus!
