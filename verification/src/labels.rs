//! The label table of the assembler: symbolic names mapped to resolved
//! memory addresses. Keys are unique; redefining a label silently
//! overwrites its address, which is documented behaviour of the assembler.

use vstd::prelude::*;

verus! {

/// The label table: an association list with unique names, viewed as a
/// `Map` from label name to address.
pub struct LabelTable {
    names: Vec<Vec<char>>,
    addrs: Vec<u16>,
}

/// The map holding the first `n` entries of the two columns.
spec fn spec_entries(names: Seq<Vec<char>>, addrs: Seq<u16>, n: nat) -> Map<
    Seq<char>,
    u16,
>
    decreases n,
{
    if n == 0 {
        Map::empty()
    } else {
        spec_entries(names, addrs, (n - 1) as nat).insert(names[n - 1]@, addrs[n - 1])
    }
}

/// What `spec_entries` holds: exactly the names listed, each at the
/// address of its last occurrence.
proof fn lemma_entries_characterization(names: Seq<Vec<char>>, addrs: Seq<u16>, n: nat)
    requires
        n <= names.len(),
        n <= addrs.len(),
    ensures
        forall|nm: Seq<char>| #![auto]
            spec_entries(names, addrs, n).contains_key(nm) <==> exists|i: int| #![auto]
                0 <= i < n && names[i]@ == nm,
        forall|i: int| #![auto]
            0 <= i < n && (forall|j: int| #![auto] i < j < n ==> names[j]@ != names[i]@)
                ==> spec_entries(names, addrs, n).contains_key(names[i]@) && spec_entries(
                names,
                addrs,
                n,
            )[names[i]@] == addrs[i],
    decreases n,
{
    if n > 0 {
        lemma_entries_characterization(names, addrs, (n - 1) as nat);
        let m_prev = spec_entries(names, addrs, (n - 1) as nat);
        let m = spec_entries(names, addrs, n);
        assert(m == m_prev.insert(names[n - 1]@, addrs[n - 1]));
        assert forall|nm: Seq<char>| #![auto] m.contains_key(nm) implies (exists|i: int| #![auto]
            0 <= i < n && names[i]@ == nm) by {
            if nm == names[n - 1]@ {
                let w: int = n - 1;
                assert(0 <= w < n && names[w]@ == nm);
            } else {
                assert(m_prev.contains_key(nm));
            }
        }
        assert forall|nm: Seq<char>| #![auto]
            (exists|i: int| #![auto] 0 <= i < n && names[i]@ == nm) implies m.contains_key(nm) by {
            let i = choose|i: int| #![auto] 0 <= i < n && names[i]@ == nm;
            if i < n - 1 {
                assert(m_prev.contains_key(nm));
            }
        }
        assert forall|i: int| #![auto]
            0 <= i < n && (forall|j: int| #![auto] i < j < n ==> names[j]@ != names[i]@) implies
            m.contains_key(names[i]@) && m[names[i]@] == addrs[i] by {
            if i == n - 1 {
            } else {
                assert(forall|j: int| #![auto] i < j < n - 1 ==> names[j]@ != names[i]@);
                assert(m_prev.contains_key(names[i]@) && m_prev[names[i]@] == addrs[i]);
                assert(names[n - 1]@ != names[i]@);
            }
        }
    }
}

impl View for LabelTable {
    type V = Map<Seq<char>, u16>;

    closed spec fn view(&self) -> Map<Seq<char>, u16> {
        spec_entries(self.names@, self.addrs@, self.names.len() as nat)
    }
}

impl LabelTable {
    /// Internal consistency: two columns of equal length, names unique.
    pub closed spec fn wf(&self) -> bool {
        &&& self.names.len() == self.addrs.len()
        &&& forall|i: int, j: int| #![auto]
            0 <= i < j < self.names.len() ==> self.names@[i]@ != self.names@[j]@
    }

    /// An empty table.
    pub fn new() -> (t: LabelTable)
        ensures
            t.wf(),
            t@ == Map::<Seq<char>, u16>::empty(),
    {
        LabelTable { names: Vec::new(), addrs: Vec::new() }
    }

    /// The index at which `name` is stored, if it is.
    fn find(&self, name: &Vec<char>) -> (r: Option<usize>)
        requires
            self.wf(),
        ensures
            match r {
                Some(i) => i < self.names.len() && self.names@[i as int]@ == name@,
                None => forall|i: int| #![auto]
                    0 <= i < self.names.len() ==> self.names@[i]@ != name@,
            },
    {
        let mut i: usize = 0;
        while i < self.names.len()
            invariant
                self.wf(),
                i <= self.names.len(),
                forall|j: int| #![auto] 0 <= j < i ==> self.names@[j]@ != name@,
            decreases self.names.len() - i,
        {
            if chars_eq(&self.names[i], name) {
                return Some(i);
            }
            i += 1;
        }
        None
    }

    /// Records `name` at address `addr`, overwriting any previous address
    /// of the same name.
    pub fn insert(&mut self, name: &Vec<char>, addr: u16)
        requires
            old(self).wf(),
        ensures
            final(self).wf(),
            final(self)@ == old(self)@.insert(name@, addr),
    {
        proof {
            lemma_entries_characterization(self.names@, self.addrs@, self.names.len() as nat);
        }
        match self.find(name) {
            Some(i) => {
                self.addrs[i] = addr;
                proof {
                    lemma_entries_characterization(
                        self.names@,
                        self.addrs@,
                        self.names.len() as nat,
                    );
                    assert forall|nm: Seq<char>| #![auto]
                        self@.contains_key(nm) implies old(self)@.insert(
                        name@,
                        addr,
                    ).contains_key(nm) && self@[nm] == old(self)@.insert(name@, addr)[nm] by {
                        let n = self.names@.len() as nat;
                        let k = choose|k: int| #![auto]
                            0 <= k < n && self.names@[k]@ == nm;
                        assert(forall|j: int| #![auto]
                            k < j < n ==> self.names@[j]@ != self.names@[k]@);
                        assert(self@[nm] == self.addrs@[k]);
                        assert(old(self)@.contains_key(nm));
                        if k == i as int {
                            assert(nm == name@);
                            assert(self.addrs@[k] == addr);
                        } else {
                            assert(self.names@[i as int]@ == name@);
                            assert(nm != name@);
                            assert(old(self)@[nm] == old(self).addrs@[k]);
                            assert(self.addrs@[k] == old(self).addrs@[k]);
                        }
                    }
                    assert forall|nm: Seq<char>| #![auto]
                        old(self)@.insert(name@, addr).contains_key(nm) implies self@.contains_key(
                        nm,
                    ) by {
                        if nm != name@ {
                            let k = choose|k: int| #![auto]
                                0 <= k < old(self).names@.len() && old(self).names@[k]@ == nm;
                            assert(self.names@[k]@ == nm);
                        } else {
                            assert(self.names@[i as int]@ == nm);
                        }
                    }
                    assert(self@ =~= old(self)@.insert(name@, addr));
                }
            },
            None => {
                let cloned_name = name.clone();
                proof {
                    assert(cloned_name@ =~= name@);
                }
                self.names.push(cloned_name);
                self.addrs.push(addr);
                proof {
                    let n0 = old(self).names@.len() as nat;
                    assert(self.names@ == old(self).names@.push(self.names@[n0 as int]));
                    assert(spec_entries(self.names@, self.addrs@, n0) == old(self)@) by {
                        lemma_entries_push(
                            old(self).names@,
                            old(self).addrs@,
                            self.names@[n0 as int],
                            addr,
                            n0,
                        );
                    }
                    assert(self@ == spec_entries(self.names@, self.addrs@, n0).insert(
                        self.names@[n0 as int]@,
                        addr,
                    ));
                    assert(self.names@[n0 as int]@ == name@);
                }
            },
        }
    }

    /// The address recorded for `name`, if any.
    pub fn lookup(&self, name: &Vec<char>) -> (r: Option<u16>)
        requires
            self.wf(),
        ensures
            r == if self@.contains_key(name@) {
                Some(self@[name@])
            } else {
                None::<u16>
            },
    {
        proof {
            lemma_entries_characterization(self.names@, self.addrs@, self.names.len() as nat);
        }
        match self.find(name) {
            Some(i) => {
                proof {
                    assert(forall|j: int| #![auto]
                        i < j < self.names@.len() ==> self.names@[j]@ != self.names@[i as int]@);
                }
                Some(self.addrs[i])
            },
            None => None,
        }
    }
}

/// Appending an entry does not change the map built from the entries
/// before it.
proof fn lemma_entries_push(names: Seq<Vec<char>>, addrs: Seq<u16>, nv: Vec<char>, av: u16, n: nat)
    requires
        n <= names.len(),
        n <= addrs.len(),
    ensures
        spec_entries(names.push(nv), addrs.push(av), n) == spec_entries(names, addrs, n),
    decreases n,
{
    if n > 0 {
        lemma_entries_push(names, addrs, nv, av, (n - 1) as nat);
        assert(names.push(nv)[n - 1] == names[n - 1]);
        assert(addrs.push(av)[n - 1] == addrs[n - 1]);
    }
}

/// Whether two character vectors hold the same characters.
fn chars_eq(a: &Vec<char>, b: &Vec<char>) -> (r: bool)
    ensures
        r == (a@ == b@),
{
    if a.len() != b.len() {
        proof {
            assert(a@ != b@);
        }
        return false;
    }
    let mut i: usize = 0;
    while i < a.len()
        invariant
            a@.len() == b@.len(),
            i <= a@.len(),
            forall|j: int| 0 <= j < i ==> a@[j] == b@[j],
        decreases a@.len() - i,
    {
        if a[i] != b[i] {
            proof {
                assert(a@[i as int] != b@[i as int]);
            }
            return false;
        }
        i += 1;
    }
    proof {
        assert(a@ =~= b@);
    }
    true
}

} // verus!
