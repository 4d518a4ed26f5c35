//! A table that gives each distinct value a dense integer identity, and
//! looks up in both directions.

use vstd::prelude::*;
use vstd::std_specs::cmp::PartialEqSpec;

verus! {

/// Values by identity: the value with identity `i` is at index `i`. No two
/// values are equal.
pub struct AtomTable<T> {
    values: Vec<T>,
}

/// The first index of `s` whose value equals `v`, if any.
pub open spec fn index_of<T: PartialEq>(s: Seq<T>, v: T) -> Option<int>
    decreases s.len(),
{
    if s.len() == 0 {
        None
    } else {
        match index_of(s.drop_last(), v) {
            Some(i) => Some(i),
            None => if s.last().eq_spec(&v) {
                Some(s.len() - 1)
            } else {
                None
            },
        }
    }
}

/// No two values of `s` are equal.
pub open spec fn distinct<T: PartialEq>(s: Seq<T>) -> bool {
    forall|i: int, j: int|
        0 <= i < s.len() && 0 <= j < s.len() && i != j ==> !#[trigger] s[i].eq_spec(&s[j])
}

impl<T> View for AtomTable<T> {
    type V = Seq<T>;

    closed spec fn view(&self) -> Seq<T> {
        self.values@
    }
}

pub proof fn lemma_index_of_bound<T: PartialEq>(s: Seq<T>, v: T)
    ensures
        index_of(s, v) matches Some(i) ==> 0 <= i < s.len() && s[i].eq_spec(&v),
    decreases s.len(),
{
    if s.len() > 0 {
        lemma_index_of_bound(s.drop_last(), v);
    }
}

proof fn lemma_index_of_none<T: PartialEq>(s: Seq<T>, v: T)
    requires
        forall|k: int| 0 <= k < s.len() ==> !(#[trigger] s[k]).eq_spec(&v),
    ensures
        index_of(s, v) is None,
    decreases s.len(),
{
    if s.len() > 0 {
        lemma_index_of_none(s.drop_last(), v);
    }
}

proof fn lemma_index_of_first<T: PartialEq>(s: Seq<T>, v: T, i: int)
    requires
        0 <= i < s.len(),
        s[i].eq_spec(&v),
        forall|k: int| 0 <= k < i ==> !(#[trigger] s[k]).eq_spec(&v),
    ensures
        index_of(s, v) == Some(i),
    decreases s.len(),
{
    if i < s.len() - 1 {
        lemma_index_of_first(s.drop_last(), v, i);
    } else {
        lemma_index_of_none(s.drop_last(), v);
    }
}

impl<T: PartialEq> AtomTable<T> {
    pub fn new() -> (r: AtomTable<T>)
        ensures
            r@ == Seq::<T>::empty(),
    {
        AtomTable { values: Vec::new() }
    }

    pub fn len(&self) -> (r: usize)
        ensures
            r == self@.len(),
    {
        self.values.len()
    }

    /// The identity of a value equal to `value`, if there is one.
    pub fn get_id(&self, value: &T) -> (r: Option<usize>)
        requires
            T::obeys_eq_spec(),
        ensures
            match r {
                Some(i) => index_of(self@, *value) == Some(i as int),
                None => index_of(self@, *value) is None,
            },
    {
        let mut i: usize = 0;
        while i < self.values.len()
            invariant
                T::obeys_eq_spec(),
                i <= self.values@.len(),
                forall|k: int| 0 <= k < i ==> !(#[trigger] self.values@[k]).eq_spec(value),
            decreases self.values@.len() - i,
        {
            if self.values[i].eq(value) {
                proof {
                    lemma_index_of_first(self.values@, *value, i as int);
                }
                return Some(i);
            }
            i += 1;
        }
        proof {
            lemma_index_of_none(self.values@, *value);
        }
        None
    }

    /// The value with identity `id`, if there is one.
    pub fn get_value(&self, id: usize) -> (r: Option<&T>)
        ensures
            match r {
                Some(v) => id < self@.len() && *v == self@[id as int],
                None => id >= self@.len(),
            },
    {
        if id < self.values.len() {
            Some(&self.values[id])
        } else {
            None
        }
    }

    /// The identity of a value equal to `value`; a new identity, the next
    /// one, where there is none.
    pub fn get_or_create_id_for_owned_value(&mut self, value: T) -> (r: usize)
        requires
            T::obeys_eq_spec(),
            old(self)@.len() < usize::MAX,
        ensures
            r < final(self)@.len(),
            final(self)@[r as int] == value || final(self)@[r as int].eq_spec(&value),
            match index_of(old(self)@, value) {
                Some(i) => r == i && final(self)@ == old(self)@,
                None => r == old(self)@.len() && final(self)@ == old(self)@.push(value),
            },
    {
        match self.get_id(&value) {
            Some(id) => {
                proof {
                    lemma_index_of_bound(self.values@, value);
                }
                id
            },
            None => {
                let id = self.values.len();
                self.values.push(value);
                id
            },
        }
    }

    /// Two identities whose values in `values` are equal, if there are any.
    pub fn find_collision(values: &Vec<T>) -> (r: Option<(usize, usize)>)
        requires
            T::obeys_eq_spec(),
        ensures
            match r {
                None => distinct(values@),
                Some((i, j)) => i < j < values@.len() && (values@[i as int].eq_spec(&values@[j as int])
                    || values@[j as int].eq_spec(&values@[i as int])),
            },
    {
        let mut j: usize = 0;
        while j < values.len()
            invariant
                T::obeys_eq_spec(),
                j <= values@.len(),
                forall|a: int, b: int|
                    0 <= a < j && 0 <= b < values@.len() && a != b ==> !#[trigger] values@[a].eq_spec(
                        &values@[b],
                    ),
            decreases values@.len() - j,
        {
            let mut i: usize = 0;
            while i < values.len()
                invariant
                    T::obeys_eq_spec(),
                    j < values@.len(),
                    i <= values@.len(),
                    forall|a: int, b: int|
                        0 <= a < j && 0 <= b < values@.len() && a != b ==> !#[trigger] values@[a].eq_spec(
                            &values@[b],
                        ),
                    forall|b: int| 0 <= b < i && b != j ==> !#[trigger] values@[j as int].eq_spec(&values@[b]),
                decreases values@.len() - i,
            {
                if i != j && values[j].eq(&values[i]) {
                    if i < j {
                        return Some((i, j));
                    } else {
                        return Some((j, i));
                    }
                }
                i += 1;
            }
            j += 1;
        }
        None
    }

    /// A table with the same identities holding `values`: the value with
    /// identity `i` is `values[i]`. Equal values would break the identities,
    /// so they are a contract violation, left out here; `find_collision`
    /// tells beforehand.
    pub fn from_distinct_values(values: Vec<T>) -> (r: AtomTable<T>)
        requires
            distinct(values@),
        ensures
            r@ == values@,
    {
        AtomTable { values }
    }
}

} // verus!
