//! The registry: which address has which mailbox.
//!
//! The entries are kept in a vector in which no address occurs twice, and
//! are read as a map from address to mailbox.

use vstd::prelude::*;
use crate::address::Address;
use crate::mailbox::{Mailbox, MailboxView};
use crate::message::AgentMsg;

verus! {

/// One entry of the registry.
pub(crate) struct Slot {
    pub(crate) address: Address,
    pub(crate) mailbox: Mailbox,
}

/// The address of the `i`-th registry entry.
pub(crate) open spec fn key_at(slots: Seq<Slot>, i: int) -> Seq<u8> {
    slots[i].address@
}

/// No address occurs twice in the registry.
pub(crate) open spec fn distinct_keys(slots: Seq<Slot>) -> bool {
    forall|i: int, j: int| 0 <= i < j < slots.len() ==> key_at(slots, i) != key_at(slots, j)
}

/// Whether the registry has an entry for `key`.
pub(crate) open spec fn has_key(slots: Seq<Slot>, key: Seq<u8>) -> bool {
    exists|i: int| 0 <= i < slots.len() && key_at(slots, i) == key
}

/// The place of the entry for `key`.
pub(crate) open spec fn index_of(slots: Seq<Slot>, key: Seq<u8>) -> int {
    choose|i: int| 0 <= i < slots.len() && key_at(slots, i) == key
}

/// The registry as a map from address to mailbox.
pub(crate) open spec fn mailboxes_of(slots: Seq<Slot>) -> Map<Seq<u8>, MailboxView> {
    Map::new(|k: Seq<u8>| has_key(slots, k), |k: Seq<u8>| slots[index_of(slots, k)].mailbox@)
}

/// Whether `key` has an entry whose mailbox is full.
pub(crate) open spec fn full_in(slots: Seq<Slot>, key: Seq<u8>) -> bool {
    mailboxes_of(slots).contains_key(key) && mailboxes_of(slots)[key].is_full()
}

/// In a registry without repeats, the map sends the address of each
/// entry to the mailbox of that entry.
pub(crate) proof fn lemma_lookup(slots: Seq<Slot>, i: int)
    requires
        distinct_keys(slots),
        0 <= i < slots.len(),
    ensures
        has_key(slots, key_at(slots, i)),
        index_of(slots, key_at(slots, i)) == i,
        mailboxes_of(slots).contains_key(key_at(slots, i)),
        mailboxes_of(slots)[key_at(slots, i)] == slots[i].mailbox@,
{
    let key = key_at(slots, i);
    assert(has_key(slots, key));
    let j = index_of(slots, key);
    assert(0 <= j < slots.len() && key_at(slots, j) == key);
    if j < i {
        assert(key_at(slots, j) != key_at(slots, i));
    } else if i < j {
        assert(key_at(slots, i) != key_at(slots, j));
    }
}

/// Changing the mailbox of one entry changes the map at that address
/// and nowhere else.
pub(crate) proof fn lemma_update(before: Seq<Slot>, after: Seq<Slot>, i: int)
    requires
        distinct_keys(before),
        0 <= i < before.len(),
        after.len() == before.len(),
        forall|j: int| 0 <= j < before.len() ==> key_at(after, j) == key_at(before, j),
        forall|j: int| 0 <= j < before.len() && j != i ==> after[j].mailbox@ == before[j].mailbox@,
    ensures
        distinct_keys(after),
        mailboxes_of(after) =~= mailboxes_of(before).insert(key_at(before, i), after[i].mailbox@),
{
    assert(distinct_keys(after)) by {
        assert forall|a: int, b: int| 0 <= a < b < after.len() implies key_at(after, a) != key_at(
            after,
            b,
        ) by {
            assert(key_at(before, a) != key_at(before, b));
        }
    }
    let target = mailboxes_of(before).insert(key_at(before, i), after[i].mailbox@);
    assert forall|k: Seq<u8>| mailboxes_of(after).contains_key(k) <==> target.contains_key(k) by {
        if has_key(after, k) {
            let j = index_of(after, k);
            assert(key_at(before, j) == k);
        }
        if has_key(before, k) {
            let j = index_of(before, k);
            assert(key_at(after, j) == k);
        }
        lemma_lookup(before, i);
        lemma_lookup(after, i);
    }
    assert forall|k: Seq<u8>| mailboxes_of(after).contains_key(k) implies mailboxes_of(after)[k]
        == target[k] by {
        let j = index_of(after, k);
        lemma_lookup(after, j);
        lemma_lookup(before, j);
    }
}

/// Looks for the registry entry of `address`.
pub(crate) fn position(slots: &Vec<Slot>, address: &Address) -> (out: Option<usize>)
    ensures
        (match out {
            Some(i) => i < slots@.len() && key_at(slots@, i as int) == address@,
            None => !has_key(slots@, address@),
        }),
{
    let mut i: usize = 0;
    while i < slots.len()
        invariant
            i <= slots@.len(),
            forall|j: int| 0 <= j < i ==> key_at(slots@, j) != address@,
        decreases slots@.len() - i,
    {
        if slots[i].address == *address {
            return Some(i);
        }
        i += 1;
    }
    None
}

/// Whether the mailbox of `address` exists and is full.
pub(crate) fn full_at(slots: &Vec<Slot>, address: &Address) -> (full: bool)
    requires
        distinct_keys(slots@),
    ensures
        full == full_in(slots@, address@),
{
    match position(slots, address) {
        None => false,
        Some(i) => {
            proof {
                lemma_lookup(slots@, i as int);
            }
            slots[i].mailbox.is_full()
        },
    }
}

/// Puts `msg` into the mailbox of `address`, or drops it if there is no
/// such mailbox.
pub(crate) fn forward(slots: &mut Vec<Slot>, address: &Address, msg: AgentMsg)
    requires
        distinct_keys(old(slots)@),
        !full_in(old(slots)@, address@),
    ensures
        distinct_keys(final(slots)@),
        (mailboxes_of(final(slots)@) == if mailboxes_of(old(slots)@).contains_key(address@) {
            mailboxes_of(old(slots)@).insert(
                address@,
                mailboxes_of(old(slots)@)[address@].with(msg@),
            )
        } else {
            mailboxes_of(old(slots)@)
        }),
{
    match position(slots, address) {
        None => {},
        Some(i) => {
            let ghost before = slots@;
            proof {
                lemma_lookup(before, i as int);
            }
            let _ = slots[i].mailbox.push(msg);
            proof {
                lemma_update(before, slots@, i as int);
            }
        },
    }
}

/// Adds an entry for an address that has none.
pub(crate) fn add_slot(slots: &mut Vec<Slot>, address: Address, mailbox: Mailbox)
    requires
        distinct_keys(old(slots)@),
        !has_key(old(slots)@, address@),
    ensures
        distinct_keys(final(slots)@),
        mailboxes_of(final(slots)@) == mailboxes_of(old(slots)@).insert(address@, mailbox@),
{
    let ghost before = slots@;
    slots.push(Slot { address, mailbox });
    proof {
        let after = slots@;
        assert(distinct_keys(after)) by {
            assert forall|a: int, b: int| 0 <= a < b < after.len() implies key_at(after, a)
                != key_at(after, b) by {
                if b < before.len() {
                    assert(key_at(before, a) != key_at(before, b));
                } else {
                    assert(key_at(before, a) == key_at(after, a));
                }
            }
        }
        let target = mailboxes_of(before).insert(address@, mailbox@);
        assert forall|k: Seq<u8>| mailboxes_of(after).contains_key(k) <==> target.contains_key(
            k,
        ) by {
            if has_key(after, k) {
                let j = index_of(after, k);
                if j < before.len() {
                    assert(key_at(before, j) == k);
                }
            }
            if has_key(before, k) {
                let j = index_of(before, k);
                assert(key_at(after, j) == k);
            }
            assert(key_at(after, before.len() as int) == address@);
        }
        assert forall|k: Seq<u8>| mailboxes_of(after).contains_key(k) implies mailboxes_of(
            after,
        )[k] == target[k] by {
            let j = index_of(after, k);
            lemma_lookup(after, j);
            if j < before.len() {
                assert(key_at(before, j) == k);
                lemma_lookup(before, j);
            }
        }
        assert(mailboxes_of(after) =~= target);
    }
}

/// Takes the entry at place `i` out of the registry.
pub(crate) fn remove_slot(slots: &mut Vec<Slot>, i: usize)
    requires
        distinct_keys(old(slots)@),
        i < old(slots)@.len(),
    ensures
        distinct_keys(final(slots)@),
        mailboxes_of(final(slots)@) == mailboxes_of(old(slots)@).remove(
            key_at(old(slots)@, i as int),
        ),
{
    let ghost before = slots@;
    let _ = slots.remove(i);
    proof {
        let after = slots@;
        let gone = key_at(before, i as int);
        assert forall|j: int| 0 <= j < after.len() implies key_at(after, j) == key_at(
            before,
            if j < i {
                j
            } else {
                j + 1
            },
        ) && after[j].mailbox@ == before[if j < i {
            j
        } else {
            j + 1
        }].mailbox@ by {}
        assert forall|a: int, b: int| 0 <= a < b < after.len() implies key_at(after, a) != key_at(
            after,
            b,
        ) by {
            let a0 = if a < i {
                a
            } else {
                a + 1
            };
            let b0 = if b < i {
                b
            } else {
                b + 1
            };
            assert(key_at(before, a0) != key_at(before, b0));
        }
        let target = mailboxes_of(before).remove(gone);
        assert forall|k: Seq<u8>| mailboxes_of(after).contains_key(k) <==> target.contains_key(
            k,
        ) by {
            if has_key(after, k) {
                let j = index_of(after, k);
                let j0 = if j < i {
                    j
                } else {
                    j + 1
                };
                assert(key_at(before, j0) == k);
                if k == gone {
                    if j0 < i {
                        assert(key_at(before, j0) != key_at(before, i as int));
                    } else {
                        assert(key_at(before, i as int) != key_at(before, j0));
                    }
                }
            }
            if has_key(before, k) && k != gone {
                let j0 = index_of(before, k);
                let j = if j0 < i {
                    j0
                } else {
                    j0 - 1
                };
                assert(key_at(after, j) == k);
            }
        }
        assert forall|k: Seq<u8>| mailboxes_of(after).contains_key(k) implies mailboxes_of(
            after,
        )[k] == target[k] by {
            let j = index_of(after, k);
            let j0 = if j < i {
                j
            } else {
                j + 1
            };
            lemma_lookup(after, j);
            assert(key_at(before, j0) == k);
            lemma_lookup(before, j0);
        }
        assert(mailboxes_of(after) =~= target);
    }
}

} // verus!
