//! The records exchanged with the note store: the link graph between
//! notes and the word-frequency index rows.  The store itself is an
//! external collaborator; these are the plain values it is handed.

use vstd::prelude::*;

verus! {

/// How two notes are connected.
#[derive(Debug)]
pub enum LinkType {
    /// A visual mind-map connection.
    Connection,
    /// A word-highlighting reference.
    WordReference,
}

/// A stored connection between two notes.
pub struct Link {
    pub id: Option<i64>,
    pub source_note_id: i64,
    pub target_note_id: i64,
    pub link_type: LinkType,
    pub created_at: String,
}

/// One row of the word-frequency index: how often a word appears in a
/// note.
pub struct WordIndex {
    pub id: Option<i64>,
    pub word: String,
    pub note_id: i64,
    pub frequency: i32,
}

pub open spec fn connection_label() -> Seq<char> {
    seq!['c', 'o', 'n', 'n', 'e', 'c', 't', 'i', 'o', 'n']
}

pub open spec fn word_reference_label() -> Seq<char> {
    seq!['w', 'o', 'r', 'd', '_', 'r', 'e', 'f', 'e', 'r', 'e', 'n', 'c', 'e']
}

impl LinkType {
    /// The stored text of the kind.
    pub open spec fn label_spec(self) -> Seq<char> {
        match self {
            LinkType::Connection => connection_label(),
            LinkType::WordReference => word_reference_label(),
        }
    }

    /// The text under which the kind is stored.
    pub fn label(&self) -> (r: Vec<char>)
        ensures
            r@ == self.label_spec(),
    {
        let mut v: Vec<char> = Vec::new();
        match self {
            LinkType::Connection => {
                v.push('c');
                v.push('o');
                v.push('n');
                v.push('n');
                v.push('e');
                v.push('c');
                v.push('t');
                v.push('i');
                v.push('o');
                v.push('n');
                proof {
                    assert(v@ =~= connection_label());
                }
            },
            LinkType::WordReference => {
                v.push('w');
                v.push('o');
                v.push('r');
                v.push('d');
                v.push('_');
                v.push('r');
                v.push('e');
                v.push('f');
                v.push('e');
                v.push('r');
                v.push('e');
                v.push('n');
                v.push('c');
                v.push('e');
                proof {
                    assert(v@ =~= word_reference_label());
                }
            },
        }
        v
    }

    /// The kind stored under a text; anything unrecognized reads as a
    /// plain connection.
    pub fn from_label(v: &Vec<char>) -> (r: LinkType)
        ensures
            r == (if v@ == word_reference_label() {
                LinkType::WordReference
            } else {
                LinkType::Connection
            }),
    {
        let is_wr = v.len() == 14 && v[0] == 'w' && v[1] == 'o' && v[2] == 'r' && v[3] == 'd'
            && v[4] == '_' && v[5] == 'r' && v[6] == 'e' && v[7] == 'f' && v[8] == 'e' && v[9]
            == 'r' && v[10] == 'e' && v[11] == 'n' && v[12] == 'c' && v[13] == 'e';
        proof {
            if is_wr {
                assert(v@ =~= word_reference_label());
            } else {
                if v@ == word_reference_label() {
                    assert(v@.len() == 14 && v@[0] == 'w' && v@[1] == 'o' && v@[2] == 'r' && v@[3]
                        == 'd' && v@[4] == '_' && v@[5] == 'r' && v@[6] == 'e' && v@[7] == 'f'
                        && v@[8] == 'e' && v@[9] == 'r' && v@[10] == 'e' && v@[11] == 'n' && v@[12]
                        == 'c' && v@[13] == 'e');
                }
            }
        }
        if is_wr {
            LinkType::WordReference
        } else {
            LinkType::Connection
        }
    }
}

} // verus!
