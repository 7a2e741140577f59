//! The host binding surface: named tables of host callables, bound to the
//! guest through rabbit handles.

use vstd::prelude::*;

verus! {

/// A host callable that can be bound behind a rabbit handle.
///
/// Callables are closed: the machine knows the effect of each, so that the
/// interpreter's small-step specification can state what a host call does.
#[derive(Clone, Copy, Debug, PartialEq, Eq, Structural)]
pub enum HostFn {
    /// stdabi's `stest`: pops an address, reads the C string there and
    /// succeeds exactly when it is the conformance magic.
    StdabiTest,
}

/// A named collection of host callables, registered with the hypervisor
/// under a symbolic identifier (such as `stdabi`) and docked by the guest.
pub struct Table {
    entries: Vec<(Vec<u8>, HostFn)>,
}

/// What looking a symbol up in a host table yields: a callable to bind, or
/// a nested table to dock in turn.
pub enum ExtData {
    Function(HostFn),
    Table(Table),
}

/// First value bound to `k` in an association list, if any.
pub open spec fn assoc_find<K, V>(s: Seq<(K, V)>, k: K) -> Option<V>
    decreases s.len(),
{
    if s.len() == 0 {
        None
    } else if s[0].0 == k {
        Some(s[0].1)
    } else {
        assoc_find(s.skip(1), k)
    }
}

/// First index bound to `k` in an association list, if any.
pub open spec fn assoc_idx<K, V>(s: Seq<(K, V)>, k: K) -> Option<int>
    decreases s.len(),
{
    if s.len() == 0 {
        None
    } else if s[0].0 == k {
        Some(0)
    } else {
        match assoc_idx(s.skip(1), k) {
            Some(i) => Some(i + 1),
            None => None,
        }
    }
}

/// A scan that has passed `n` mismatches may go on from the tail.
pub proof fn lemma_assoc_skip<K, V>(s: Seq<(K, V)>, k: K, n: int)
    requires
        0 <= n <= s.len(),
        forall|j: int| 0 <= j < n ==> (#[trigger] s[j]).0 != k,
    ensures
        assoc_find(s, k) == assoc_find(s.skip(n), k),
        assoc_idx(s, k) == match assoc_idx(s.skip(n), k) {
            Some(i) => Some(i + n),
            None => None::<int>,
        },
    decreases n,
{
    if n > 0 {
        lemma_assoc_skip(s, k, n - 1);
        assert(s.skip(n - 1).skip(1) =~= s.skip(n));
        assert(s.skip(n - 1)[0] == s[n - 1]);
    } else {
        assert(s.skip(0) =~= s);
    }
}

/// The index found by `assoc_idx` is in range and bound to `k`.
pub proof fn lemma_assoc_idx<K, V>(s: Seq<(K, V)>, k: K)
    ensures
        match assoc_idx(s, k) {
            Some(i) => 0 <= i < s.len() && s[i].0 == k && assoc_find(s, k) == Some(s[i].1),
            None => assoc_find(s, k) is None,
        },
    decreases s.len(),
{
    if s.len() > 0 && s[0].0 != k {
        lemma_assoc_idx(s.skip(1), k);
    }
}

/// Byte-vector equality, the comparison used for symbol names.
pub fn bytes_eq(a: &Vec<u8>, b: &Vec<u8>) -> (r: bool)
    ensures
        r == (a@ == b@),
{
    if a.len() != b.len() {
        proof {
            assert(a@ != b@);
        }
        return false;
    }
    let n = a.len();
    let mut i: usize = 0;
    while i < n
        invariant
            n == a.len() == b.len(),
            0 <= i <= n,
            forall|j: int| 0 <= j < i ==> a@[j] == b@[j],
        decreases n - i,
    {
        if a[i] != b[i] {
            return false;
        }
        i = i + 1;
    }
    proof {
        assert(a@ =~= b@);
    }
    true
}

impl View for Table {
    type V = Seq<(Seq<u8>, HostFn)>;

    closed spec fn view(&self) -> Seq<(Seq<u8>, HostFn)> {
        self.entries@.map_values(|e: (Vec<u8>, HostFn)| (e.0@, e.1))
    }
}

impl Table {
    /// An empty table.
    pub fn new() -> (r: Table)
        ensures
            r@ == Seq::<(Seq<u8>, HostFn)>::empty(),
    {
        let t = Table { entries: Vec::new() };
        proof {
            assert(t@ =~= Seq::<(Seq<u8>, HostFn)>::empty());
        }
        t
    }

    /// Adds a callable under `name`; earlier entries shadow later ones.
    pub fn insert(&mut self, name: Vec<u8>, f: HostFn)
        ensures
            final(self)@ == old(self)@.push((name@, f)),
    {
        let ghost before = self@;
        let ghost n = name@;
        self.entries.push((name, f));
        proof {
            assert(self@ =~= before.push((n, f)));
        }
    }

    /// Looks a symbol up, yielding the first callable bound to it.
    pub fn lookup(&self, name: &Vec<u8>) -> (r: Option<ExtData>)
        ensures
            match r {
                Some(d) => d is Function && assoc_find(self@, name@) == Some(d->Function_0),
                None => assoc_find(self@, name@) is None,
            },
    {
        let n = self.entries.len();
        let mut i: usize = 0;
        while i < n
            invariant
                n == self.entries.len(),
                0 <= i <= n,
                forall|j: int| 0 <= j < i ==> (#[trigger] self@[j]).0 != name@,
            decreases n - i,
        {
            assert(self@[i as int] == (self.entries@[i as int].0@, self.entries@[i as int].1));
            if bytes_eq(&self.entries[i].0, name) {
                proof {
                    lemma_assoc_skip(self@, name@, i as int);
                }
                return Some(ExtData::Function(self.entries[i].1));
            }
            i = i + 1;
        }
        proof {
            lemma_assoc_skip(self@, name@, n as int);
        }
        None
    }
}

/// The conformance table shipped with the machine: `stest` under `stdabi`.
pub fn stdabi() -> (r: Table)
    ensures
        r@ == seq![(stest_name(), HostFn::StdabiTest)],
{
    let mut name: Vec<u8> = Vec::new();
    name.push(115u8);
    name.push(116u8);
    name.push(101u8);
    name.push(115u8);
    name.push(116u8);
    proof {
        assert(name@ =~= stest_name());
    }
    let mut t = Table::new();
    t.insert(name, HostFn::StdabiTest);
    proof {
        assert(t@ =~= seq![(stest_name(), HostFn::StdabiTest)]);
    }
    t
}

/// The bytes of `stest`, the conformance callable's symbol.
pub open spec fn stest_name() -> Seq<u8> {
    seq![115u8, 116u8, 101u8, 115u8, 116u8]
}

/// The bytes of `STDABI TEST`, the magic the conformance callable expects.
pub open spec fn stdabi_magic() -> Seq<u8> {
    seq![83u8, 84u8, 68u8, 65u8, 66u8, 73u8, 32u8, 84u8, 69u8, 83u8, 84u8]
}

/// True when `v` holds exactly the conformance magic.
pub fn is_stdabi_magic(v: &Vec<u8>) -> (r: bool)
    ensures
        r == (v@ == stdabi_magic()),
{
    if v.len() != 11 {
        proof {
            assert(v@ != stdabi_magic());
        }
        return false;
    }
    let r = v[0] == 83 && v[1] == 84 && v[2] == 68 && v[3] == 65 && v[4] == 66 && v[5] == 73
        && v[6] == 32 && v[7] == 84 && v[8] == 69 && v[9] == 83 && v[10] == 84;
    proof {
        if r {
            assert(v@ =~= stdabi_magic());
        }
    }
    r
}

} // verus!
