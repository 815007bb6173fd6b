//! Process identifiers.
//!
//! The process directory holds one entry per running process, named by its
//! identifier, among entries of other kinds. An entry counts where it could
//! be read, its name is text, and that text is a positive decimal number that
//! fits an `i32`. Every other entry is passed over, never reported.

use crate::number::{i32_of, parse_i32};
use crate::text::decode;
use vstd::prelude::*;
use vstd::utf8::{decode_utf8, valid_utf8};

verus! {

/// The process identifier that a name stands for, where it stands for one.
pub open spec fn pid_of_name(name: Seq<char>) -> Option<i32> {
    match i32_of(name) {
        Ok(pid) => if pid > 0 {
            Some(pid)
        } else {
            None
        },
        Err(_) => None,
    }
}

/// The process identifier that a directory entry stands for, where it
/// stands for one. The entry is given by the bytes of its name, or is `None`
/// where it could not be read.
pub open spec fn pid_of(entry: Option<Seq<u8>>) -> Option<i32> {
    match entry {
        Some(name) => if valid_utf8(name) {
            pid_of_name(decode_utf8(name))
        } else {
            None
        },
        None => None,
    }
}

/// The process identifiers among `entries`, in the order of the entries.
pub open spec fn pids_of(entries: Seq<Option<Seq<u8>>>) -> Seq<i32>
    decreases entries.len(),
{
    if entries.len() == 0 {
        Seq::empty()
    } else {
        match pid_of(entries.last()) {
            Some(pid) => pids_of(entries.drop_last()).push(pid),
            None => pids_of(entries.drop_last()),
        }
    }
}

/// A directory entry as contracts see it.
pub open spec fn entry_view(entry: Option<Vec<u8>>) -> Option<Seq<u8>> {
    match entry {
        Some(name) => Some(name@),
        None => None,
    }
}

/// A directory listing as contracts see it.
pub open spec fn listing_view(entries: Seq<Option<Vec<u8>>>) -> Seq<Option<Seq<u8>>> {
    Seq::new(entries.len(), |i: int| entry_view(entries[i]))
}

/// There are no more identifiers than entries, and each of them is positive.
pub proof fn lemma_pids_are_positive(entries: Seq<Option<Seq<u8>>>)
    ensures
        pids_of(entries).len() <= entries.len(),
        forall|i: int| 0 <= i < pids_of(entries).len() ==> #[trigger] pids_of(entries)[i] > 0,
    decreases entries.len(),
{
    if entries.len() > 0 {
        lemma_pids_are_positive(entries.drop_last());
    }
}

/// The process identifier that one directory entry stands for.
///
/// `entry` holds the bytes of the entry's name, or is `None` where the entry
/// could not be read. A caller that walks a directory entry by entry gets its
/// identifiers one at a time from this function.
pub fn pid_of_entry(entry: Option<&[u8]>) -> (r: Option<i32>)
    ensures
        r == pid_of(
            match entry {
                Some(name) => Some(name@),
                None => None,
            },
        ),
{
    let name = match entry {
        Some(name) => name,
        None => {
            return None;
        },
    };
    let chars = match decode(name) {
        Some(chars) => chars,
        None => {
            return None;
        },
    };
    match parse_i32(chars.as_slice()) {
        Ok(pid) => if pid > 0 {
            Some(pid)
        } else {
            None
        },
        Err(_) => None,
    }
}

/// The process identifiers among the entries of the process directory, in
/// the order in which the directory was listed.
pub fn pids(entries: &[Option<Vec<u8>>]) -> (r: Vec<i32>)
    ensures
        r@ == pids_of(listing_view(entries@)),
        r.len() <= entries.len(),
        forall|i: int| 0 <= i < r.len() ==> #[trigger] r[i] > 0,
{
    let ghost listing = listing_view(entries@);
    let mut found: Vec<i32> = Vec::new();
    let mut i: usize = 0;
    while i < entries.len()
        invariant
            i <= entries.len(),
            listing == listing_view(entries@),
            found@ == pids_of(listing.take(i as int)),
        decreases entries.len() - i,
    {
        proof {
            assert(listing.take(i + 1).drop_last() == listing.take(i as int));
        }
        let pid = match &entries[i] {
            Some(name) => pid_of_entry(Some(name.as_slice())),
            None => pid_of_entry(None),
        };
        if let Some(pid) = pid {
            found.push(pid);
        }
        i = i + 1;
    }
    proof {
        assert(listing.take(i as int) == listing);
        lemma_pids_are_positive(listing);
    }
    found
}

} // verus!
