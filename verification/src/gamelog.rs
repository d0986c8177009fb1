//! The message log: a bounded, insertion-ordered sequence of strings, oldest
//! evicted at capacity. The engine writes it; the front end reads it. The
//! deque itself comes from the `bounded_vec_deque` crate, trusted through the
//! contracts below and modelled by its entry sequence and its bound.

use vstd::prelude::*;

use bounded_vec_deque::BoundedVecDeque;

verus! {

#[verifier::external_type_specification]
#[verifier::external_body]
#[verifier::reject_recursive_types(T)]
pub struct ExBoundedVecDeque<T>(BoundedVecDeque<T>);

/// The entries a bounded deque of strings holds, front to back.
pub uninterp spec fn deque_entries(d: BoundedVecDeque<String>) -> Seq<Seq<char>>;

/// The maximum number of elements the deque was created with.
pub uninterp spec fn deque_bound(d: BoundedVecDeque<String>) -> nat;

/// Relies on BoundedVecDeque::new: an empty deque with the given length limit.
#[verifier::external_body]
fn deque_new(max_len: usize) -> (d: BoundedVecDeque<String>)
    ensures
        deque_entries(d) == Seq::<Seq<char>>::empty(),
        deque_bound(d) == max_len,
{
    BoundedVecDeque::new(max_len)
}

/// Relies on BoundedVecDeque::push_back: appends at the back; when the deque
/// is full the front element is evicted, and a zero bound rejects the value.
#[verifier::external_body]
fn deque_push_back(d: &mut BoundedVecDeque<String>, value: String)
    ensures
        deque_bound(*final(d)) == deque_bound(*old(d)),
        deque_entries(*final(d)) == log_push_spec(
            deque_entries(*old(d)),
            deque_bound(*old(d)),
            value@,
        ),
{
    d.push_back(value);
}

/// Relies on BoundedVecDeque's deref to the inner VecDeque for `len`.
#[verifier::external_body]
fn deque_len(d: &BoundedVecDeque<String>) -> (n: usize)
    ensures
        n == deque_entries(*d).len(),
{
    d.len()
}

/// Relies on BoundedVecDeque's deref to the inner VecDeque for `get`:
/// `Some` exactly for indices under the length, holding that entry.
#[verifier::external_body]
fn deque_get(d: &BoundedVecDeque<String>, i: usize) -> (r: Option<&String>)
    ensures
        match r {
            Some(s) => i < deque_entries(*d).len() && s@ == deque_entries(*d)[i as int],
            None => i >= deque_entries(*d).len(),
        },
{
    d.get(i)
}

/// What one bounded append does to the entry sequence: plain append while
/// below the bound, append-with-front-eviction at the bound, and a rejected
/// value on a zero bound.
pub open spec fn log_push_spec(entries: Seq<Seq<char>>, bound: nat, msg: Seq<char>) -> Seq<
    Seq<char>,
> {
    if bound == 0 {
        entries
    } else if entries.len() < bound {
        entries.push(msg)
    } else {
        entries.subrange(1, entries.len() as int).push(msg)
    }
}

/// The game log. Write-only for the simulation, read-only for the front end.
pub struct GameLog {
    entries: BoundedVecDeque<String>,
}

impl View for GameLog {
    type V = Seq<Seq<char>>;

    closed spec fn view(&self) -> Seq<Seq<char>> {
        deque_entries(self.entries)
    }
}

impl GameLog {
    /// The eviction threshold this log was created with.
    pub closed spec fn bound(self) -> nat {
        deque_bound(self.entries)
    }

    pub fn new(max_len: usize) -> (log: GameLog)
        ensures
            log@ == Seq::<Seq<char>>::empty(),
            log.bound() == max_len,
    {
        GameLog { entries: deque_new(max_len) }
    }

    /// Appends a message, evicting the oldest entry at capacity.
    pub fn push(&mut self, msg: String)
        ensures
            final(self).bound() == old(self).bound(),
            final(self)@ == log_push_spec(old(self)@, old(self).bound(), msg@),
    {
        deque_push_back(&mut self.entries, msg);
    }

    pub fn len(&self) -> (n: usize)
        ensures
            n == self@.len(),
    {
        deque_len(&self.entries)
    }

    pub fn get(&self, i: usize) -> (r: Option<&String>)
        ensures
            match r {
                Some(s) => i < self@.len() && s@ == self@[i as int],
                None => i >= self@.len(),
            },
    {
        deque_get(&self.entries, i)
    }
}

} // verus!
