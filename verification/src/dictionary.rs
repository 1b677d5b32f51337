//! The name-to-identifier dictionary for locations and sensors: names are
//! exact, case-sensitive strings; each distinct name is kept on exactly one
//! row and resolves to a stable positive integer identifier. Registration is
//! idempotent; resolution of an unknown name fails and never registers.

use vstd::prelude::*;

use crate::errors::EnvError;

verus! {

/// No name occurs on two rows.
pub open spec fn spec_distinct(names: Seq<Seq<char>>) -> bool {
    forall|i: int, j: int| 0 <= i < j < names.len() ==> names[i] != names[j]
}

/// The dictionary after registering `name`: unchanged when the name is
/// already present, extended by one row otherwise.
pub open spec fn spec_register(names: Seq<Seq<char>>, name: Seq<char>) -> Seq<Seq<char>> {
    if names.contains(name) {
        names
    } else {
        names.push(name)
    }
}

/// The identifier of a registered name: one more than the row it sits on.
pub open spec fn spec_id_of(names: Seq<Seq<char>>, name: Seq<char>) -> int {
    names.index_of(name) + 1
}

/// On a duplicate-free dictionary the identifier is pinned by any row that
/// carries the name.
pub proof fn lemma_id_unique(names: Seq<Seq<char>>, name: Seq<char>, i: int)
    requires
        spec_distinct(names),
        0 <= i < names.len(),
        names[i] == name,
    ensures
        spec_id_of(names, name) == i + 1,
{
    assert(names.contains(name));
    let j = names.index_of(name);
    assert(0 <= j < names.len() && names[j] == name);
    if i != j {
        assert(names[i] != names[j]);
    }
}

/// Registration is idempotent and leaves a registered name on exactly one
/// row: registering a name twice is the same as registering it once, the
/// name is present afterwards, the result is still duplicate-free, and two
/// rows that both carry the name are the same row.
pub proof fn lemma_register_idempotent(names: Seq<Seq<char>>, name: Seq<char>)
    requires
        spec_distinct(names),
    ensures
        spec_distinct(spec_register(names, name)),
        spec_register(names, name).contains(name),
        spec_register(spec_register(names, name), name) == spec_register(names, name),
        forall|i: int, j: int|
            0 <= i < spec_register(names, name).len() && 0 <= j < spec_register(names, name).len()
                && spec_register(names, name)[i] == name && spec_register(names, name)[j] == name
                ==> i == j,
{
    let out = spec_register(names, name);
    if names.contains(name) {
        assert(out == names);
    } else {
        assert(out[names.len() as int] == name);
        assert(forall|i: int| 0 <= i < names.len() ==> out[i] == names[i]);
        assert(spec_distinct(out));
    }
    assert forall|i: int, j: int|
        0 <= i < out.len() && 0 <= j < out.len() && out[i] == name && out[j] == name implies i
        == j by {
        if i < j {
            assert(out[i] != out[j]);
        }
        if j < i {
            assert(out[j] != out[i]);
        }
    }
}

/// A dictionary of registered names. The view is the sequence of names in
/// registration order; the identifier of the name on row `i` is `i + 1`.
pub struct Dictionary {
    names: Vec<String>,
}

impl View for Dictionary {
    type V = Seq<Seq<char>>;

    closed spec fn view(&self) -> Seq<Seq<char>> {
        self.names@.map_values(|n: String| n@)
    }
}

impl Dictionary {
    /// Every name on one row only.
    pub open spec fn wf(&self) -> bool {
        spec_distinct(self@)
    }

    pub fn new() -> (r: Dictionary)
        ensures
            r.wf(),
            r@ == Seq::<Seq<char>>::empty(),
    {
        let d = Dictionary { names: Vec::new() };
        proof {
            assert(d@ =~= Seq::<Seq<char>>::empty());
        }
        d
    }

    /// The row carrying `name`, if any.
    fn find(&self, name: &str) -> (r: Option<usize>)
        ensures
            match r {
                Some(i) => i < self@.len() && self@[i as int] == name@,
                None => !self@.contains(name@),
            },
    {
        let owned: String = name.to_owned();
        let n = self.names.len();
        let mut i: usize = 0;
        while i < n
            invariant
                n == self.names.len(),
                i <= n,
                owned@ == name@,
                forall|k: int| 0 <= k < i ==> self@[k] != name@,
            decreases n - i,
        {
            if self.names[i] == owned {
                return Some(i);
            }
            i = i + 1;
        }
        proof {
            assert(forall|k: int| 0 <= k < self@.len() ==> self@[k] != name@);
        }
        None
    }

    /// Resolves a name to its identifier; an unknown name yields `NotFound`
    /// and, the receiver being shared, cannot register anything.
    pub fn resolve(&self, name: &str) -> (r: Result<i64, EnvError>)
        requires
            self.wf(),
            self@.len() < 0x7fff_ffff_ffff_ffff,
        ensures
            r is Ok <==> self@.contains(name@),
            r matches Ok(id) ==> id == spec_id_of(self@, name@) && 1 <= id <= self@.len()
                && self@[id - 1] == name@,
            r is Err ==> r == Err::<i64, EnvError>(EnvError::NotFound),
    {
        match self.find(name) {
            Some(i) => {
                let n = self.names.len();
                proof {
                    assert(self@.len() == self.names@.len());
                    assert(i < n);
                    assert(self@.contains(name@));
                    lemma_id_unique(self@, name@, i as int);
                }
                Ok((i + 1) as i64)
            },
            None => Err(EnvError::NotFound),
        }
    }

    /// Registers a name, creating one row on first use; registering a name
    /// that is already present succeeds without adding a row. Returns the
    /// name's identifier either way.
    pub fn register(&mut self, name: &str) -> (id: i64)
        requires
            old(self).wf(),
            old(self)@.len() < 0x7fff_ffff_ffff_ffff,
        ensures
            final(self).wf(),
            final(self)@ == spec_register(old(self)@, name@),
            id == spec_id_of(final(self)@, name@),
            1 <= id <= final(self)@.len(),
            final(self)@[id - 1] == name@,
    {
        match self.find(name) {
            Some(i) => {
                let n = self.names.len();
                proof {
                    assert(self@.len() == self.names@.len());
                    assert(i < n);
                    assert(self@.contains(name@));
                    lemma_id_unique(self@, name@, i as int);
                }
                (i + 1) as i64
            },
            None => {
                let ghost before = self@;
                self.names.push(name.to_owned());
                proof {
                    assert(self@ =~= before.push(name@));
                    assert(forall|i: int| 0 <= i < before.len() ==> self@[i] == before[i]);
                    assert(self@[before.len() as int] == name@);
                    assert(spec_distinct(self@));
                    lemma_id_unique(self@, name@, before.len() as int);
                }
                self.names.len() as i64
            },
        }
    }

    /// How many names are registered.
    pub fn len(&self) -> (r: usize)
        ensures
            r == self@.len(),
    {
        self.names.len()
    }
}

} // verus!
