//! A quick scan of the declarations of a crate for lock types.

use vstd::prelude::*;

use crate::stable_analysis::lock_types::AnalyzedItem;
use crate::stable_mir::mir::{Body, LocalDecl};
use crate::stable_mir::ty::TyTable;
use crate::text::{has_sub, str_has_sub, views};

verus! {

broadcast use {vstd::seq_lib::lemma_seq_contains_after_push, vstd::seq::Seq::lemma_push_to_set_commute};

/// A text mentions one of `patterns`.
pub open spec fn mentions_any(t: Seq<char>, patterns: Seq<&'static str>) -> bool {
    exists|k: int| 0 <= k < patterns.len() && has_sub(t, (#[trigger] patterns[k])@)
}

/// Some declaration among `locals` has a type whose printed form mentions one of `patterns`.
pub open spec fn locals_use_locks(table: TyTable, locals: Seq<LocalDecl>, patterns: Seq<&'static str>) -> bool {
    exists|k: int| 0 <= k < locals.len() && mentions_any(table.text_of((#[trigger] locals[k]).ty), patterns)
}

/// The printed lock types among `locals`.
pub open spec fn lock_texts_in(table: TyTable, locals: Seq<LocalDecl>, patterns: Seq<&'static str>, t: Seq<char>) -> bool {
    exists|k: int| 0 <= k < locals.len() && table.text_of((#[trigger] locals[k]).ty) == t && mentions_any(t, patterns)
}

/// A scan of a crate for lock types by the printed form of declared types.
pub struct QuickLockScanner {
    lock_patterns: Vec<&'static str>,
}

/// What a scan found: the instances that declare locks, each once, the printed lock types,
/// each once, and whether there is any.
#[derive(Clone, Debug)]
pub struct LockUsageInfo {
    pub instances_with_locks: Vec<String>,
    pub lock_types_found: Vec<String>,
    pub has_locks: bool,
}

/// The texts hold no two equal strings.
pub open spec fn texts_unique(v: Seq<String>) -> bool {
    forall|i: int, j: int| 0 <= i < v.len() && 0 <= j < v.len() && (#[trigger] v[i])@ == (#[trigger] v[j])@ ==> i == j
}

/// Appends `s` unless a string with the same text is there.
fn push_text(v: &mut Vec<String>, s: String)
    requires
        texts_unique(old(v)@),
    ensures
        texts_unique(final(v)@),
        views(final(v)@).to_set() == views(old(v)@).to_set().insert(s@),
{
    let mut i: usize = 0;
    while i < v.len()
        invariant
            i <= v@.len(),
            v@ == old(v)@,
            texts_unique(v@),
            forall|k: int| 0 <= k < i ==> (#[trigger] v@[k])@ != s@,
        decreases v@.len() - i,
    {
        if v[i] == s {
            proof {
                assert(views(v@)[i as int] == s@);
                assert(views(v@).to_set() =~= views(v@).to_set().insert(s@));
            }
            return;
        }
        i = i + 1;
    }
    let ghost before = v@;
    v.push(s);
    proof {
        assert(views(v@) =~= views(before).push(s@));
    }
}

impl QuickLockScanner {
    /// The patterns a printed type is searched for.
    pub closed spec fn patterns(&self) -> Seq<&'static str> {
        self.lock_patterns@
    }

    /// A scanner for `Mutex`, `RwLock` and their guards.
    pub fn new() -> (r: Self)
        ensures
            r.patterns().len() == 5,
            r.patterns()[0]@ == "Mutex"@,
            r.patterns()[1]@ == "RwLock"@,
            r.patterns()[2]@ == "MutexGuard"@,
            r.patterns()[3]@ == "RwLockReadGuard"@,
            r.patterns()[4]@ == "RwLockWriteGuard"@,
    {
        let mut lock_patterns: Vec<&'static str> = Vec::new();
        lock_patterns.push("Mutex");
        lock_patterns.push("RwLock");
        lock_patterns.push("MutexGuard");
        lock_patterns.push("RwLockReadGuard");
        lock_patterns.push("RwLockWriteGuard");
        Self { lock_patterns }
    }

    /// Whether the printed form `t` mentions one of the patterns.
    fn mentions_pattern(&self, t: &str) -> (r: bool)
        ensures
            r == mentions_any(t@, self.patterns()),
    {
        let mut k: usize = 0;
        while k < self.lock_patterns.len()
            invariant
                k <= self.lock_patterns@.len(),
                forall|j: int| 0 <= j < k ==> !has_sub(t@, (#[trigger] self.lock_patterns@[j])@),
            decreases self.lock_patterns@.len() - k,
        {
            if str_has_sub(t, self.lock_patterns[k]) {
                return true;
            }
            k = k + 1;
        }
        false
    }

    /// Whether some item declares a local of a lock or guard type.
    pub fn crate_uses_locks(&self, items: &[AnalyzedItem], table: &TyTable) -> (r: bool)
        ensures
            r == exists|i: int| 0 <= i < items@.len() && locals_use_locks(*table, (#[trigger] items@[i]).body.locals_spec(), self.patterns()),
    {
        let mut i: usize = 0;
        while i < items.len()
            invariant
                i <= items@.len(),
                forall|j: int| 0 <= j < i ==> !locals_use_locks(*table, (#[trigger] items@[j]).body.locals_spec(), self.patterns()),
            decreases items@.len() - i,
        {
            if self.item_uses_locks(&items[i], table) {
                return true;
            }
            i = i + 1;
        }
        false
    }

    /// Whether `item` declares a local of a lock or guard type.
    fn item_uses_locks(&self, item: &AnalyzedItem, table: &TyTable) -> (r: bool)
        ensures
            r == locals_use_locks(*table, item.body.locals_spec(), self.patterns()),
    {
        self.instance_has_lock_locals(&item.body, table)
    }

    /// Whether `body` declares a local of a lock or guard type.
    fn instance_has_lock_locals(&self, body: &Body, table: &TyTable) -> (r: bool)
        ensures
            r == locals_use_locks(*table, body.locals_spec(), self.patterns()),
    {
        let locals = body.locals();
        let mut k: usize = 0;
        while k < locals.len()
            invariant
                locals@ == body.locals_spec(),
                k <= locals@.len(),
                forall|j: int| 0 <= j < k ==> !mentions_any(table.text_of((#[trigger] locals@[j]).ty), self.patterns()),
            decreases locals@.len() - k,
        {
            let t = table.text(&locals[k].ty);
            if self.mentions_pattern(t.as_str()) {
                return true;
            }
            k = k + 1;
        }
        false
    }

    /// The instances that declare locks and the printed lock types they declare.
    pub fn scan_lock_types(&self, items: &[AnalyzedItem], table: &TyTable) -> (r: LockUsageInfo)
        ensures
            texts_unique(r.instances_with_locks@),
            texts_unique(r.lock_types_found@),
            forall|n: Seq<char>| #[trigger] views(r.instances_with_locks@).contains(n) <==> exists|i: int|
                0 <= i < items@.len() && (#[trigger] items@[i]).name@ == n && locals_use_locks(*table, items@[i].body.locals_spec(), self.patterns()),
            forall|t: Seq<char>| #[trigger] views(r.lock_types_found@).contains(t) <==> exists|i: int|
                0 <= i < items@.len() && lock_texts_in(*table, (#[trigger] items@[i]).body.locals_spec(), self.patterns(), t),
            r.has_locks == (r.instances_with_locks@.len() > 0),
    {
        let mut instances_with_locks: Vec<String> = Vec::new();
        let mut lock_types_found: Vec<String> = Vec::new();
        let mut i: usize = 0;
        while i < items.len()
            invariant
                i <= items@.len(),
                texts_unique(instances_with_locks@),
                texts_unique(lock_types_found@),
                forall|n: Seq<char>| #[trigger] views(instances_with_locks@).to_set().contains(n) <==> exists|j: int|
                    0 <= j < i && (#[trigger] items@[j]).name@ == n && locals_use_locks(*table, items@[j].body.locals_spec(), self.patterns()),
                forall|t: Seq<char>| #[trigger] views(lock_types_found@).to_set().contains(t) <==> exists|j: int|
                    0 <= j < i && lock_texts_in(*table, (#[trigger] items@[j]).body.locals_spec(), self.patterns(), t),
            decreases items@.len() - i,
        {
            let item = &items[i];
            let locals = item.body.locals();
            let ghost names_before = views(instances_with_locks@).to_set();
            let ghost types_before = views(lock_types_found@).to_set();
            let mut k: usize = 0;
            while k < locals.len()
                invariant
                    locals@ == item.body.locals_spec(),
                    *item == items@[i as int],
                    k <= locals@.len(),
                    texts_unique(instances_with_locks@),
                    texts_unique(lock_types_found@),
                    views(instances_with_locks@).to_set() == if exists|j: int| 0 <= j < k && mentions_any(table.text_of((#[trigger] locals@[j]).ty), self.patterns()) {
                        names_before.insert(item.name@)
                    } else {
                        names_before
                    },
                    forall|t: Seq<char>| #[trigger] views(lock_types_found@).to_set().contains(t) <==> (types_before.contains(t) || exists|j: int|
                        0 <= j < k && table.text_of((#[trigger] locals@[j]).ty) == t && mentions_any(t, self.patterns())),
                decreases locals@.len() - k,
            {
                let ty_str = table.text(&locals[k].ty);
                if self.mentions_pattern(ty_str.as_str()) {
                    push_text(&mut instances_with_locks, item.name.clone());
                    push_text(&mut lock_types_found, ty_str);
                }
                proof {
                    assert(views(instances_with_locks@).to_set() =~= if exists|j: int| 0 <= j < k + 1 && mentions_any(table.text_of((#[trigger] locals@[j]).ty), self.patterns()) {
                        names_before.insert(item.name@)
                    } else {
                        names_before
                    });
                }
                k = k + 1;
            }
            proof {
                assert forall|n: Seq<char>| #[trigger] views(instances_with_locks@).to_set().contains(n) <==> exists|j: int|
                    0 <= j < i + 1 && (#[trigger] items@[j]).name@ == n && locals_use_locks(*table, items@[j].body.locals_spec(), self.patterns()) by {
                    if views(instances_with_locks@).to_set().contains(n) && !names_before.contains(n) {
                        assert(items@[i as int].name@ == n);
                    }
                    if exists|j: int| 0 <= j < i + 1 && (#[trigger] items@[j]).name@ == n && locals_use_locks(*table, items@[j].body.locals_spec(), self.patterns()) {
                        let j = choose|j: int| 0 <= j < i + 1 && (#[trigger] items@[j]).name@ == n && locals_use_locks(*table, items@[j].body.locals_spec(), self.patterns());
                        if j == i {
                            let kk = choose|kk: int| 0 <= kk < locals@.len() && mentions_any(table.text_of((#[trigger] locals@[kk]).ty), self.patterns());
                            assert(exists|jj: int| 0 <= jj < locals@.len() && mentions_any(table.text_of((#[trigger] locals@[jj]).ty), self.patterns()));
                        }
                    }
                }
                assert forall|t: Seq<char>| #[trigger] views(lock_types_found@).to_set().contains(t) <==> exists|j: int|
                    0 <= j < i + 1 && lock_texts_in(*table, (#[trigger] items@[j]).body.locals_spec(), self.patterns(), t) by {
                    if exists|j: int| 0 <= j < i + 1 && lock_texts_in(*table, (#[trigger] items@[j]).body.locals_spec(), self.patterns(), t) {
                        let j = choose|j: int| 0 <= j < i + 1 && lock_texts_in(*table, (#[trigger] items@[j]).body.locals_spec(), self.patterns(), t);
                        if j == i {
                            let kk = choose|kk: int| 0 <= kk < locals@.len() && table.text_of((#[trigger] locals@[kk]).ty) == t && mentions_any(t, self.patterns());
                        }
                    }
                }
            }
            i = i + 1;
        }
        proof {
            assert forall|n: Seq<char>| #[trigger] views(instances_with_locks@).contains(n) <==> views(instances_with_locks@).to_set().contains(n) by {}
            assert forall|t: Seq<char>| #[trigger] views(lock_types_found@).contains(t) <==> views(lock_types_found@).to_set().contains(t) by {}
        }
        let has_locks = instances_with_locks.len() > 0;
        LockUsageInfo { instances_with_locks, lock_types_found, has_locks }
    }
}

impl Default for QuickLockScanner {
    fn default() -> (r: Self)
        ensures
            r.patterns().len() == 5,
    {
        Self::new()
    }
}

/// The quick check and the full scan agree on whether a crate uses locks: the check answers
/// yes exactly when the scan finds an instance that declares a lock.
pub proof fn law_uses_locks_agrees(
    table: TyTable,
    items: Seq<AnalyzedItem>,
    patterns: Seq<&'static str>,
    uses: bool,
    info: LockUsageInfo,
)
    requires
        uses == exists|i: int| 0 <= i < items.len() && locals_use_locks(table, (#[trigger] items[i]).body.locals_spec(), patterns),
        forall|n: Seq<char>| #[trigger] views(info.instances_with_locks@).contains(n) <==> exists|i: int|
            0 <= i < items.len() && (#[trigger] items[i]).name@ == n && locals_use_locks(table, items[i].body.locals_spec(), patterns),
        info.has_locks == (info.instances_with_locks@.len() > 0),
    ensures
        uses == info.has_locks,
{
    let names = views(info.instances_with_locks@);
    if uses {
        let i = choose|i: int| 0 <= i < items.len() && locals_use_locks(table, (#[trigger] items[i]).body.locals_spec(), patterns);
        assert(names.contains(items[i].name@));
    }
    if info.has_locks {
        assert(names.contains(names[0]));
    }
}

} // verus!
