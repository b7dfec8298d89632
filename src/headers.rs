use vstd::prelude::*;

verus! {

/// The mapping that a sequence of name/value pairs denotes, a later pair
/// overriding an earlier one with the same name.
pub open spec fn map_of(s: Seq<(Seq<char>, Seq<char>)>) -> Map<Seq<char>, Seq<char>>
    decreases s.len(),
{
    if s.len() == 0 {
        Map::empty()
    } else {
        map_of(s.drop_last()).insert(s.last().0, s.last().1)
    }
}

/// No two pairs of `s` share a name.
pub open spec fn names_unique(s: Seq<(Seq<char>, Seq<char>)>) -> bool {
    forall|i: int, j: int| 0 <= i < s.len() && 0 <= j < s.len() && i != j ==> s[i].0 != s[j].0
}

/// Each pair of a sequence without repeated names stands in its mapping.
pub proof fn lemma_map_of_has(s: Seq<(Seq<char>, Seq<char>)>, i: int)
    requires
        names_unique(s),
        0 <= i < s.len(),
    ensures
        map_of(s).contains_key(s[i].0),
        map_of(s)[s[i].0] == s[i].1,
    decreases s.len(),
{
    if i < s.len() - 1 {
        let t = s.drop_last();
        assert(names_unique(t));
        assert(t[i] == s[i]);
        lemma_map_of_has(t, i);
        assert(s.last().0 != s[i].0);
    }
}

/// A name that no pair carries is not in the mapping.
pub proof fn lemma_map_of_lacks(s: Seq<(Seq<char>, Seq<char>)>, k: Seq<char>)
    requires
        forall|i: int| 0 <= i < s.len() ==> s[i].0 != k,
    ensures
        !map_of(s).contains_key(k),
    decreases s.len(),
{
    if s.len() > 0 {
        let t = s.drop_last();
        assert forall|i: int| 0 <= i < t.len() implies t[i].0 != k by {
            assert(t[i] == s[i]);
        }
        lemma_map_of_lacks(t, k);
        assert(s[s.len() - 1].0 != k);
    }
}

/// Changing the value of a pair changes that name's value in the mapping,
/// where no name repeats.
pub proof fn lemma_map_of_update(s: Seq<(Seq<char>, Seq<char>)>, i: int, v: Seq<char>)
    requires
        names_unique(s),
        0 <= i < s.len(),
    ensures
        map_of(s.update(i, (s[i].0, v))) == map_of(s).insert(s[i].0, v),
    decreases s.len(),
{
    let k = s[i].0;
    let u = s.update(i, (k, v));
    if i == s.len() - 1 {
        assert(u.drop_last() =~= s.drop_last());
        assert(map_of(u) =~= map_of(s).insert(k, v));
    } else {
        let t = s.drop_last();
        assert(names_unique(t));
        assert(t[i] == s[i]);
        lemma_map_of_update(t, i, v);
        assert(u.drop_last() =~= t.update(i, (k, v)));
        assert(s.last().0 != k);
        assert(map_of(u) =~= map_of(s).insert(k, v));
    }
}

/// A set of header fields: names map to values, each name at most once.
/// The fields keep the order in which their names first came.
pub struct Headers {
    fields: Vec<(String, String)>,
}

impl Headers {
    /// The fields as name/value pairs, in order.
    pub closed spec fn pairs(&self) -> Seq<(Seq<char>, Seq<char>)> {
        self.fields@.map_values(|p: (String, String)| (p.0@, p.1@))
    }

    /// No name stands twice.
    #[verifier::type_invariant]
    pub(crate) open spec fn inv(self) -> bool {
        names_unique(self.pairs())
    }

    /// The mapping from names to values.
    pub open spec fn view(&self) -> Map<Seq<char>, Seq<char>> {
        map_of(self.pairs())
    }

    /// No fields.
    pub fn new() -> (r: Headers)
        ensures
            names_unique(r.pairs()),
            r.pairs() == Seq::<(Seq<char>, Seq<char>)>::empty(),
            r@ == Map::<Seq<char>, Seq<char>>::empty(),
    {
        let r = Headers { fields: Vec::new() };
        assert(r.pairs() =~= Seq::<(Seq<char>, Seq<char>)>::empty());
        r
    }

    /// The number of fields.
    pub fn len(&self) -> (r: usize)
        ensures
            r == self.pairs().len(),
            names_unique(self.pairs()),
    {
        proof {
            use_type_invariant(self);
        }
        self.fields.len()
    }

    /// The field at position `i`.
    pub fn field(&self, i: usize) -> (r: (&String, &String))
        requires
            i < self.pairs().len(),
        ensures
            (r.0@, r.1@) == self.pairs()[i as int],
    {
        let p = &self.fields[i];
        (&p.0, &p.1)
    }

    /// Sets the value of `name`: it replaces the value that `name` had,
    /// or comes last as a new field.
    pub fn insert(&mut self, name: String, value: String)
        ensures
            names_unique(final(self).pairs()),
            final(self)@ == old(self)@.insert(name@, value@),
            old(self)@.contains_key(name@) ==> exists|i: int|
                0 <= i < old(self).pairs().len() && old(self).pairs()[i].0 == name@
                    && final(self).pairs() == old(self).pairs().update(i, (name@, value@)),
            !old(self)@.contains_key(name@) ==> final(self).pairs() == old(self).pairs().push(
                (name@, value@),
            ),
    {
        proof {
            use_type_invariant(&*self);
        }
        let ghost s0 = self.pairs();
        let mut i: usize = 0;
        while i < self.fields.len() && self.fields[i].0 != name
            invariant
                self.pairs() == s0,
                names_unique(s0),
                i <= s0.len(),
                forall|k: int| 0 <= k < i ==> s0[k].0 != name@,
            decreases self.fields.len() - i,
        {
            i = i + 1;
        }
        let ghost nm = name@;
        let ghost vl = value@;
        let mut fields: Vec<(String, String)> = Vec::new();
        core::mem::swap(&mut self.fields, &mut fields);
        if i < fields.len() {
            proof {
                lemma_map_of_update(s0, i as int, vl);
                lemma_map_of_has(s0, i as int);
            }
            fields.set(i, (name, value));
        } else {
            proof {
                lemma_map_of_lacks(s0, nm);
            }
            fields.push((name, value));
        }
        proof {
            let s1 = fields@.map_values(|p: (String, String)| (p.0@, p.1@));
            if i < s0.len() {
                assert(s1 =~= s0.update(i as int, (nm, vl)));
            } else {
                assert(s1 =~= s0.push((nm, vl)));
                assert(s1.drop_last() =~= s0);
            }
            assert(names_unique(s1));
        }
        core::mem::swap(&mut self.fields, &mut fields);
    }

    /// The value of `name`, if it is set.
    pub fn get(&self, name: &str) -> (r: Option<&String>)
        ensures
            r is Some <==> self@.contains_key(name@),
            r is Some ==> r->0@ == self@[name@],
    {
        proof {
            use_type_invariant(self);
        }
        let ghost s = self.pairs();
        let key: String = name.to_owned();
        let mut i: usize = 0;
        while i < self.fields.len()
            invariant
                self.pairs() == s,
                names_unique(s),
                key@ == name@,
                i <= s.len(),
                forall|k: int| 0 <= k < i ==> s[k].0 != name@,
            decreases self.fields.len() - i,
        {
            if self.fields[i].0 == key {
                proof {
                    lemma_map_of_has(s, i as int);
                }
                return Some(&self.fields[i].1);
            }
            i = i + 1;
        }
        proof {
            lemma_map_of_lacks(s, name@);
        }
        None
    }
}

} // verus!
