//! Modules: named containers for type descriptors and top-level functions,
//! arranged in a tree.  Children point back at their parent so the whole
//! graph stays rooted; lookup itself is local to one module.

use vstd::prelude::*;

use crate::arena::lemma_wf_alloc;
use crate::arena::lemma_wf_modu_update;
use crate::arena::modu_cell_wf;
use crate::arena::Arena;
use crate::arena::ArenaM;
use crate::error::Error;
use crate::fun::Fun;
use crate::ident::Ident;
use crate::typ::Typ;

verus! {

/// Handle of a shared, mutable module cell.
#[derive(Clone, Copy, Debug, PartialEq, Eq, Structural)]
pub struct Modu {
    pub id: usize,
}

/// Contents of a module cell.  The three tables are association lists with
/// unique keys, kept in insertion order; an insert on a present key replaces
/// the entry (last write wins).
pub struct ModuData {
    pub ident: Ident,
    pub parent_modu: Option<Modu>,
    pub child_modus: Vec<(Ident, Modu)>,
    pub typs: Vec<(Ident, Typ)>,
    pub funs: Vec<(Ident, Fun)>,
}

/// Mathematical model of a module cell.
#[verifier::ext_equal]
pub ghost struct ModuM {
    pub ident: Ident,
    pub parent_modu: Option<Modu>,
    pub child_modus: Seq<(Ident, Modu)>,
    pub typs: Seq<(Ident, Typ)>,
    pub funs: Seq<(Ident, Fun)>,
}

impl View for ModuData {
    type V = ModuM;

    open spec fn view(&self) -> ModuM {
        ModuM {
            ident: self.ident,
            parent_modu: self.parent_modu,
            child_modus: self.child_modus@,
            typs: self.typs@,
            funs: self.funs@,
        }
    }
}

/// The entry under `key`, the latest insert winning.
pub open spec fn assoc_get<T>(entries: Seq<(Ident, T)>, key: Ident) -> Option<T>
    decreases entries.len(),
{
    if entries.len() == 0 {
        None
    } else if entries.last().0 == key {
        Some(entries.last().1)
    } else {
        assoc_get(entries.drop_last(), key)
    }
}

/// True when no key occurs twice.
pub open spec fn keys_unique<T>(entries: Seq<(Ident, T)>) -> bool {
    forall|i: int, j: int|
        0 <= i < entries.len() && 0 <= j < entries.len() && i != j ==> (#[trigger] entries[i]).0
            != (#[trigger] entries[j]).0
}

/// Looks `key` up in the association list.
pub(crate) fn assoc_find<T: Copy>(entries: &Vec<(Ident, T)>, key: Ident) -> (r: Option<T>)
    ensures
        r == assoc_get(entries@, key),
{
    let mut k = entries.len();
    proof {
        assert(entries@.subrange(0, entries@.len() as int) =~= entries@);
    }
    while k > 0
        invariant
            k <= entries.len(),
            assoc_get(entries@, key) == assoc_get(entries@.subrange(0, k as int), key),
        decreases k,
    {
        k -= 1;
        let entry = entries[k];
        proof {
            assert(entries@.subrange(0, k + 1).last() == entries@[k as int]);
            assert(entries@.subrange(0, k + 1).drop_last() =~= entries@.subrange(0, k as int));
        }
        if entry.0 == key {
            return Some(entry.1);
        }
    }
    proof {
        assert(entries@.subrange(0, 0) =~= Seq::<(Ident, T)>::empty());
    }
    None
}

/// Replacing the unique occurrence of `key` rewrites exactly that key's
/// entry, seen through `assoc_get`.
pub(crate) proof fn lemma_assoc_get_update<T>(entries: Seq<(Ident, T)>, i: int, key: Ident, value: T)
    requires
        keys_unique(entries),
        0 <= i < entries.len(),
        entries[i].0 == key,
    ensures
        forall|k2: Ident| #[trigger]
            assoc_get(entries.update(i, (key, value)), k2) == if k2 == key {
                Some(value)
            } else {
                assoc_get(entries, k2)
            },
    decreases entries.len(),
{
    let updated = entries.update(i, (key, value));
    assert forall|k2: Ident| #[trigger]
        assoc_get(updated, k2) == if k2 == key {
            Some(value)
        } else {
            assoc_get(entries, k2)
        } by {
        if i == entries.len() - 1 {
            assert(updated.last() == (key, value));
            assert(updated.drop_last() =~= entries.drop_last());
            assert(entries[entries.len() - 1] == entries.last());
            assert(entries.last().0 == key);
            if k2 == key {
                assert(assoc_get(updated, k2) == Some(value));
            } else {
                assert(assoc_get(updated, k2) == assoc_get(updated.drop_last(), k2));
                assert(assoc_get(entries, k2) == assoc_get(entries.drop_last(), k2));
            }
        } else {
            assert(updated.last() == entries.last());
            assert(entries[entries.len() - 1] == entries.last());
            assert(entries.last().0 != key);
            assert(updated.drop_last() =~= entries.drop_last().update(i, (key, value)));
            assert(keys_unique(entries.drop_last())) by {
                assert forall|x: int, y: int|
                    0 <= x < entries.drop_last().len() && 0 <= y < entries.drop_last().len() && x
                        != y implies (#[trigger] entries.drop_last()[x]).0 != (
                #[trigger] entries.drop_last()[y]).0 by {
                    assert(entries.drop_last()[x] == entries[x]);
                    assert(entries.drop_last()[y] == entries[y]);
                }
            }
            lemma_assoc_get_update(entries.drop_last(), i, key, value);
            assert(assoc_get(updated.drop_last(), k2) == if k2 == key {
                Some(value)
            } else {
                assoc_get(entries.drop_last(), k2)
            });
            if k2 == key {
                assert(updated.last().0 != k2);
                assert(assoc_get(updated, k2) == assoc_get(updated.drop_last(), k2));
            } else {
                if entries.last().0 == k2 {
                    assert(assoc_get(updated, k2) == Some(updated.last().1));
                    assert(assoc_get(entries, k2) == Some(entries.last().1));
                } else {
                    assert(assoc_get(updated, k2) == assoc_get(updated.drop_last(), k2));
                    assert(assoc_get(entries, k2) == assoc_get(entries.drop_last(), k2));
                }
            }
        }
    }
}

/// Appending a fresh key adds exactly that entry, seen through `assoc_get`.
pub(crate) proof fn lemma_assoc_get_push<T>(entries: Seq<(Ident, T)>, key: Ident, value: T)
    ensures
        forall|k2: Ident| #[trigger]
            assoc_get(entries.push((key, value)), k2) == if k2 == key {
                Some(value)
            } else {
                assoc_get(entries, k2)
            },
{
    assert(entries.push((key, value)).drop_last() =~= entries);
}

/// Inserts `value` under `key`: replaces the present entry or appends a
/// fresh one.
pub(crate) fn assoc_put<T: Copy>(entries: &mut Vec<(Ident, T)>, key: Ident, value: T)
    requires
        keys_unique(old(entries)@),
    ensures
        keys_unique(final(entries)@),
        forall|k2: Ident| #[trigger]
            assoc_get(final(entries)@, k2) == if k2 == key {
                Some(value)
            } else {
                assoc_get(old(entries)@, k2)
            },
        forall|i: int|
            0 <= i < final(entries)@.len() ==> #[trigger] final(entries)@[i] == (key, value) || (i
                < old(entries)@.len() && final(entries)@[i] == old(entries)@[i]),
        old(entries)@.len() <= final(entries)@.len() <= old(entries)@.len() + 1,
    {
    match assoc_index(entries, key) {
        Some(k) => {
            proof {
                lemma_assoc_get_update(entries@, k as int, key, value);
            }
            entries.set(k, (key, value));
        },
        None => {
            proof {
                lemma_assoc_get_push(entries@, key, value);
            }
            entries.push((key, value));
        },
    }
}

/// The position of `key` in the association list, if any.
pub(crate) fn assoc_index<T: Copy>(entries: &Vec<(Ident, T)>, key: Ident) -> (r: Option<usize>)
    ensures
        match r {
            Some(i) => i < entries@.len() && entries@[i as int].0 == key,
            None => forall|j: int| 0 <= j < entries@.len() ==> (#[trigger] entries@[j]).0 != key,
        },
{
    let n = entries.len();
    let mut k: usize = 0;
    while k < n
        invariant
            n == entries@.len(),
            k <= n,
            forall|j: int| 0 <= j < k ==> (#[trigger] entries@[j]).0 != key,
        decreases n - k,
    {
        if entries[k].0 == key {
            return Some(k);
        }
        k += 1;
    }
    None
}

impl Modu {
    /// A fresh module named `ident`, with no parent and empty tables.
    pub fn new(arena: &mut Arena, ident: Ident) -> (r: Modu)
        requires
            old(arena).wf(),
            ident.wf(old(arena)@),
        ensures
            final(arena).wf(),
            final(arena)@.extends(old(arena)@),
            final(arena)@ == (ArenaM {
                modus: old(arena)@.modus.push(
                    ModuM {
                        ident,
                        parent_modu: None::<Modu>,
                        child_modus: Seq::empty(),
                        typs: Seq::empty(),
                        funs: Seq::empty(),
                    },
                ),
                ..old(arena)@
            }),
            r.id == old(arena)@.modus.len(),
    {
        let ghost a1 = arena@;
        let id = arena.modus.len();
        arena.modus.push(
            ModuData {
                ident,
                parent_modu: None,
                child_modus: Vec::new(),
                typs: Vec::new(),
                funs: Vec::new(),
            },
        );
        proof {
            let a2 = arena@;
            assert(a2 =~~= (ArenaM {
                modus: a1.modus.push(
                    ModuM {
                        ident,
                        parent_modu: None::<Modu>,
                        child_modus: Seq::empty(),
                        typs: Seq::empty(),
                        funs: Seq::empty(),
                    },
                ),
                ..a1
            }));
            lemma_wf_alloc(a1, a2);
        }
        Modu { id }
    }

    /// A fresh module named `ident` whose parent reference is `parent_modu`,
    /// with empty tables.  The parent itself is untouched: entering the
    /// child into the parent's child table is `define_child`, a loading-time
    /// mutation of its own.
    pub fn with_parent_modu(arena: &mut Arena, ident: Ident, parent_modu: Modu) -> (r: Modu)
        requires
            old(arena).wf(),
            ident.wf(old(arena)@),
            parent_modu.id < old(arena)@.modus.len(),
        ensures
            final(arena).wf(),
            final(arena)@.extends(old(arena)@),
            final(arena)@ == (ArenaM {
                modus: old(arena)@.modus.push(
                    ModuM {
                        ident,
                        parent_modu: Some(parent_modu),
                        child_modus: Seq::empty(),
                        typs: Seq::empty(),
                        funs: Seq::empty(),
                    },
                ),
                ..old(arena)@
            }),
            r.id == old(arena)@.modus.len(),
    {
        let ghost a1 = arena@;
        let id = arena.modus.len();
        arena.modus.push(
            ModuData {
                ident,
                parent_modu: Some(parent_modu),
                child_modus: Vec::new(),
                typs: Vec::new(),
                funs: Vec::new(),
            },
        );
        proof {
            let a2 = arena@;
            assert(a2 =~~= (ArenaM {
                modus: a1.modus.push(
                    ModuM {
                        ident,
                        parent_modu: Some(parent_modu),
                        child_modus: Seq::empty(),
                        typs: Seq::empty(),
                        funs: Seq::empty(),
                    },
                ),
                ..a1
            }));
            lemma_wf_alloc(a1, a2);
        }
        Modu { id }
    }

    /// Registers `child` in the module's child table under `ident`,
    /// replacing any prior entry.
    pub fn define_child(&self, arena: &mut Arena, ident: Ident, child: Modu)
        requires
            old(arena).wf(),
            self.id < old(arena)@.modus.len(),
            ident.wf(old(arena)@),
            child.id < old(arena)@.modus.len(),
        ensures
            final(arena).wf(),
            final(arena)@.extends(old(arena)@),
            final(arena)@ == (ArenaM { modus: final(arena)@.modus, ..old(arena)@ }),
            final(arena)@.modus.len() == old(arena)@.modus.len(),
            forall|j: int|
                0 <= j < final(arena)@.modus.len() && j != self.id ==> final(arena)@.modus[j]
                    == old(arena)@.modus[j],
            ({
                let m1 = old(arena)@.modus[self.id as int];
                let m2 = final(arena)@.modus[self.id as int];
                &&& m2.ident == m1.ident
                &&& m2.parent_modu == m1.parent_modu
                &&& m2.typs == m1.typs
                &&& m2.funs == m1.funs
                &&& forall|k2: Ident| #[trigger]
                    assoc_get(m2.child_modus, k2) == if k2 == ident {
                        Some(child)
                    } else {
                        assoc_get(m1.child_modus, k2)
                    }
            }),
    {
        let ghost a1 = arena@;
        let data = &mut arena.modus[self.id];
        let ghost m1 = data@;
        proof {
            assert(modu_cell_wf(a1.modus[self.id as int], a1));
        }
        assoc_put(&mut data.child_modus, ident, child);
        proof {
            let a2 = arena@;
            let m2 = a2.modus[self.id as int];
            assert(a2 =~~= (ArenaM { modus: a1.modus.update(self.id as int, m2), ..a1 }));
            assert(modu_cell_wf(m2, a2)) by {
                assert forall|i: int| 0 <= i < m2.child_modus.len() implies (
                #[trigger] m2.child_modus[i]).0.wf(a2) && m2.child_modus[i].1.id
                    < a2.modus.len() by {
                    if m2.child_modus[i] == (ident, child) {
                    } else {
                        assert(m2.child_modus[i] == m1.child_modus[i]);
                    }
                }
            }
            lemma_wf_modu_update(a1, a2, self.id as int, m2);
        }
    }

    /// Inserts `fun` into the module's function table under `ident`,
    /// replacing any prior entry.
    pub fn define_fun(&self, arena: &mut Arena, ident: Ident, fun: Fun)
        requires
            old(arena).wf(),
            self.id < old(arena)@.modus.len(),
            ident.wf(old(arena)@),
            fun.id < old(arena)@.funs.len(),
        ensures
            final(arena).wf(),
            final(arena)@.extends(old(arena)@),
            final(arena)@ == (ArenaM { modus: final(arena)@.modus, ..old(arena)@ }),
            final(arena)@.modus.len() == old(arena)@.modus.len(),
            forall|j: int|
                0 <= j < final(arena)@.modus.len() && j != self.id ==> final(arena)@.modus[j] == old(arena)@.modus[j],
            ({
                let m1 = old(arena)@.modus[self.id as int];
                let m2 = final(arena)@.modus[self.id as int];
                &&& m2.ident == m1.ident
                &&& m2.parent_modu == m1.parent_modu
                &&& m2.child_modus == m1.child_modus
                &&& m2.typs == m1.typs
                &&& forall|k2: Ident| #[trigger]
                    assoc_get(m2.funs, k2) == if k2 == ident {
                        Some(fun)
                    } else {
                        assoc_get(m1.funs, k2)
                    }
            }),
    {
        let ghost a1 = arena@;
        let data = &mut arena.modus[self.id];
        let ghost m1 = data@;
        proof {
            assert(modu_cell_wf(a1.modus[self.id as int], a1));
        }
        assoc_put(&mut data.funs, ident, fun);
        proof {
            let a2 = arena@;
            let m2 = a2.modus[self.id as int];
            assert(a2 =~~= (ArenaM { modus: a1.modus.update(self.id as int, m2), ..a1 }));
            assert(modu_cell_wf(m2, a2)) by {
                assert forall|i: int| 0 <= i < m2.funs.len() implies (#[trigger] m2.funs[i]).0.wf(
                    a2,
                ) && m2.funs[i].1.id < a2.funs.len() by {
                    if m2.funs[i] == (ident, fun) {
                    } else {
                        assert(m2.funs[i] == m1.funs[i]);
                    }
                }
            }
            lemma_wf_modu_update(a1, a2, self.id as int, m2);
        }
    }

    /// The function under `ident`, or `FunctionNotFound` when the table has
    /// no such entry.
    pub fn fun(&self, arena: &Arena, ident: Ident) -> (r: Result<Fun, Error>)
        requires
            arena.wf(),
            self.id < arena@.modus.len(),
        ensures
            r == match assoc_get(arena@.modus[self.id as int].funs, ident) {
                Some(f) => Ok::<Fun, Error>(f),
                None => Err::<Fun, Error>(Error::FunctionNotFound { ident }),
            },
            r matches Ok(f) ==> f.id < arena@.funs.len(),
    {
        proof {
            assert(modu_cell_wf(arena@.modus[self.id as int], arena@));
            lemma_assoc_get_in(arena@.modus[self.id as int].funs, ident);
        }
        match assoc_find(&arena.modus[self.id].funs, ident) {
            Some(fun) => Ok(fun),
            None => Err(Error::FunctionNotFound { ident }),
        }
    }

    /// Inserts `typ` into the module's type table under `ident`, replacing
    /// any prior entry.
    pub fn define_typ(&self, arena: &mut Arena, ident: Ident, typ: Typ)
        requires
            old(arena).wf(),
            self.id < old(arena)@.modus.len(),
            ident.wf(old(arena)@),
            match typ {
                Typ::Struct(s) => s.id < old(arena)@.struct_defs.len(),
                Typ::Enum(e) => e.id < old(arena)@.enum_defs.len(),
            },
        ensures
            final(arena).wf(),
            final(arena)@.extends(old(arena)@),
            final(arena)@ == (ArenaM { modus: final(arena)@.modus, ..old(arena)@ }),
            final(arena)@.modus.len() == old(arena)@.modus.len(),
            forall|j: int|
                0 <= j < final(arena)@.modus.len() && j != self.id ==> final(arena)@.modus[j] == old(arena)@.modus[j],
            ({
                let m1 = old(arena)@.modus[self.id as int];
                let m2 = final(arena)@.modus[self.id as int];
                &&& m2.ident == m1.ident
                &&& m2.parent_modu == m1.parent_modu
                &&& m2.child_modus == m1.child_modus
                &&& m2.funs == m1.funs
                &&& forall|k2: Ident| #[trigger]
                    assoc_get(m2.typs, k2) == if k2 == ident {
                        Some(typ)
                    } else {
                        assoc_get(m1.typs, k2)
                    }
            }),
    {
        let ghost a1 = arena@;
        let data = &mut arena.modus[self.id];
        let ghost m1 = data@;
        proof {
            assert(modu_cell_wf(a1.modus[self.id as int], a1));
        }
        assoc_put(&mut data.typs, ident, typ);
        proof {
            let a2 = arena@;
            let m2 = a2.modus[self.id as int];
            assert(a2 =~~= (ArenaM { modus: a1.modus.update(self.id as int, m2), ..a1 }));
            assert(modu_cell_wf(m2, a2)) by {
                assert forall|i: int| 0 <= i < m2.typs.len() implies (#[trigger] m2.typs[i]).0.wf(
                    a2,
                ) && match m2.typs[i].1 {
                    Typ::Struct(s) => s.id < a2.struct_defs.len(),
                    Typ::Enum(e) => e.id < a2.enum_defs.len(),
                } by {
                    if m2.typs[i] == (ident, typ) {
                    } else {
                        assert(m2.typs[i] == m1.typs[i]);
                    }
                }
            }
            lemma_wf_modu_update(a1, a2, self.id as int, m2);
        }
    }

    /// The type descriptor under `ident`, or `FunctionNotFound` when the
    /// table has no such entry (the module-lookup miss error).
    pub fn typ(&self, arena: &Arena, ident: Ident) -> (r: Result<Typ, Error>)
        requires
            arena.wf(),
            self.id < arena@.modus.len(),
        ensures
            r == match assoc_get(arena@.modus[self.id as int].typs, ident) {
                Some(t) => Ok::<Typ, Error>(t),
                None => Err::<Typ, Error>(Error::FunctionNotFound { ident }),
            },
    {
        match assoc_find(&arena.modus[self.id].typs, ident) {
            Some(typ) => Ok(typ),
            None => Err(Error::FunctionNotFound { ident }),
        }
    }

    /// The registered child under `ident`, or `FunctionNotFound` when the
    /// table has no such entry (the module-lookup miss error).
    pub fn child(&self, arena: &Arena, ident: Ident) -> (r: Result<Modu, Error>)
        requires
            arena.wf(),
            self.id < arena@.modus.len(),
        ensures
            r == match assoc_get(arena@.modus[self.id as int].child_modus, ident) {
                Some(m) => Ok::<Modu, Error>(m),
                None => Err::<Modu, Error>(Error::FunctionNotFound { ident }),
            },
            r matches Ok(m) ==> m.id < arena@.modus.len(),
    {
        proof {
            assert(modu_cell_wf(arena@.modus[self.id as int], arena@));
            lemma_assoc_get_in(arena@.modus[self.id as int].child_modus, ident);
        }
        match assoc_find(&arena.modus[self.id].child_modus, ident) {
            Some(modu) => Ok(modu),
            None => Err(Error::FunctionNotFound { ident }),
        }
    }
}

/// With unique keys, the entry at the found position is what `assoc_get`
/// yields.
pub(crate) proof fn lemma_assoc_get_at<T>(entries: Seq<(Ident, T)>, i: int, key: Ident)
    requires
        keys_unique(entries),
        0 <= i < entries.len(),
        entries[i].0 == key,
    ensures
        assoc_get(entries, key) == Some(entries[i].1),
    decreases entries.len(),
{
    if i == entries.len() - 1 {
    } else {
        assert(entries[entries.len() - 1] == entries.last());
        assert(entries.last().0 != key);
        assert(keys_unique(entries.drop_last())) by {
            assert(forall|x: int|
                0 <= x < entries.drop_last().len() ==> entries.drop_last()[x] == entries[x]);
        }
        assert(entries.drop_last()[i] == entries[i]);
        lemma_assoc_get_at(entries.drop_last(), i, key);
    }
}

/// A key that no entry holds is not found.
pub(crate) proof fn lemma_assoc_get_missing<T>(entries: Seq<(Ident, T)>, key: Ident)
    requires
        forall|j: int| 0 <= j < entries.len() ==> (#[trigger] entries[j]).0 != key,
    ensures
        assoc_get(entries, key) is None,
    decreases entries.len(),
{
    if entries.len() > 0 {
        assert(entries[entries.len() - 1] == entries.last());
        assert(forall|j: int|
            0 <= j < entries.drop_last().len() ==> (#[trigger] entries.drop_last()[j]) == entries[j]);
        lemma_assoc_get_missing(entries.drop_last(), key);
    }
}

/// What `assoc_get` finds is one of the entries.
pub proof fn lemma_assoc_get_in<T>(entries: Seq<(Ident, T)>, key: Ident)
    ensures
        match assoc_get(entries, key) {
            Some(v) => exists|i: int|
                0 <= i < entries.len() && (#[trigger] entries[i]) == (key, v),
            None => true,
        },
    decreases entries.len(),
{
    if entries.len() > 0 {
        if entries.last().0 == key {
            assert(entries[entries.len() - 1] == (key, entries.last().1));
        } else {
            lemma_assoc_get_in(entries.drop_last(), key);
            match assoc_get(entries.drop_last(), key) {
                Some(v) => {
                    let i = choose|i: int|
                        0 <= i < entries.drop_last().len() && (#[trigger] entries.drop_last()[i])
                            == (key, v);
                    assert(entries[i] == (key, v));
                },
                None => {},
            }
        }
    }
}

} // verus!
