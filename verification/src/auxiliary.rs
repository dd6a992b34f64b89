//! Free-form key/value metrics provided by the host.  Entries are kept
//! in insertion order with unique keys; setting a key to the value it
//! already has is a no-op and raises no change.

use vstd::prelude::*;

verus! {

/// Index of the entry with key `k`, or -1 when no entry has it.
pub open spec fn aux_key_index(s: Seq<(String, String)>, k: Seq<char>) -> int
    decreases s.len(),
{
    if s.len() == 0 {
        -1
    } else if s[0].0@ == k {
        0
    } else {
        let rest = aux_key_index(s.skip(1), k);
        if rest < 0 {
            -1
        } else {
            rest + 1
        }
    }
}

/// A scan that found `k` first at `i` agrees with `aux_key_index`.
pub proof fn lemma_aux_key_index_found(s: Seq<(String, String)>, k: Seq<char>, i: int)
    requires
        0 <= i < s.len(),
        s[i].0@ == k,
        forall|j: int| 0 <= j < i ==> s[j].0@ != k,
    ensures
        aux_key_index(s, k) == i,
    decreases s.len(),
{
    if i > 0 {
        lemma_aux_key_index_found(s.skip(1), k, i - 1);
    }
}

/// A scan that never found `k` agrees with `aux_key_index`.
pub proof fn lemma_aux_key_index_absent(s: Seq<(String, String)>, k: Seq<char>)
    requires
        forall|j: int| 0 <= j < s.len() ==> s[j].0@ != k,
    ensures
        aux_key_index(s, k) == -1,
    decreases s.len(),
{
    if s.len() > 0 {
        lemma_aux_key_index_absent(s.skip(1), k);
    }
}

/// The entries after a `set`: an update in place, or a fresh entry at
/// the end.
pub open spec fn aux_after_set(s: Seq<(String, String)>, key: String, value: String) -> Seq<
    (String, String),
> {
    let i = aux_key_index(s, key@);
    if i >= 0 {
        s.update(i, (s[i].0, value))
    } else {
        s.push((key, value))
    }
}

/// Whether a `set` changes anything: the key is new, or its value is.
pub open spec fn aux_set_modifies(s: Seq<(String, String)>, key: String, value: String) -> bool {
    let i = aux_key_index(s, key@);
    i < 0 || s[i].1@ != value@
}

pub struct Auxiliary {
    entries: Vec<(String, String)>,
    has_new_data: bool,
}

impl Auxiliary {
    pub closed spec fn entries_spec(self) -> Seq<(String, String)> {
        self.entries@
    }

    pub closed spec fn has_new_data_spec(self) -> bool {
        self.has_new_data
    }

    pub fn new() -> (r: Auxiliary)
        ensures
            r.entries_spec() =~= Seq::<(String, String)>::empty(),
            !r.has_new_data_spec(),
    {
        Auxiliary { entries: Vec::new(), has_new_data: false }
    }

    /// Insert or update an entry; reports whether anything changed.
    /// An unchanged value leaves the store, and the change flag, alone.
    pub fn set(&mut self, key: String, value: String) -> (modified: bool)
        ensures
            modified == aux_set_modifies(old(self).entries_spec(), key, value),
            final(self).entries_spec() == (if modified {
                aux_after_set(old(self).entries_spec(), key, value)
            } else {
                old(self).entries_spec()
            }),
            final(self).has_new_data_spec() == (old(self).has_new_data_spec() || modified),
    {
        let ghost s = self.entries@;
        let n = self.entries.len();
        let mut i: usize = 0;
        while i < n
            invariant
                n == self.entries@.len(),
                0 <= i <= n,
                self.entries@ == s,
                s == old(self).entries_spec(),
                self.has_new_data == old(self).has_new_data_spec(),
                forall|j: int| 0 <= j < i ==> s[j].0@ != key@,
            decreases n - i,
        {
            let entry: &(String, String) = vstd::std_specs::vec::vec_index(&self.entries, i);
            if entry.0 == key {
                proof {
                    lemma_aux_key_index_found(s, key@, i as int);
                }
                if entry.1 == value {
                    return false;
                }
                let pair = (self.entries[i].0.clone(), value);
                self.entries.set(i, pair);
                self.has_new_data = true;
                proof {
                    assert(self.entries@ =~= aux_after_set(s, key, value));
                }
                return true;
            }
            i = i + 1;
        }
        proof {
            lemma_aux_key_index_absent(s, key@);
        }
        self.entries.push((key, value));
        self.has_new_data = true;
        true
    }

    pub fn has_new_data(&self) -> (r: bool)
        ensures
            r == self.has_new_data_spec(),
    {
        self.has_new_data
    }

    pub fn on_device_id_changed(&mut self)
        ensures
            final(self).entries_spec() =~= Seq::<(String, String)>::empty(),
            !final(self).has_new_data_spec(),
    {
        self.clear();
    }

    pub fn on_record_sequence_number_changed(&mut self)
        ensures
            final(self).entries_spec() =~= Seq::<(String, String)>::empty(),
            !final(self).has_new_data_spec(),
    {
        self.clear();
    }

    /// Forget all entries and the change flag.
    pub fn clear(&mut self)
        ensures
            final(self).entries_spec() =~= Seq::<(String, String)>::empty(),
            !final(self).has_new_data_spec(),
    {
        self.entries.clear();
        self.has_new_data = false;
    }

    /// Drop only the change flag (the entries were just collected).
    pub fn mark_collected(&mut self)
        ensures
            final(self).entries_spec() == old(self).entries_spec(),
            !final(self).has_new_data_spec(),
    {
        self.has_new_data = false;
    }

    /// Borrow the entries for serialization.
    pub fn entries(&self) -> (r: &Vec<(String, String)>)
        ensures
            r@ == self.entries_spec(),
    {
        &self.entries
    }
}

} // verus!
