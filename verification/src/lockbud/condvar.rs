//! Recognising the calls of the condition-variable APIs of std and parking_lot.

use vstd::prelude::*;

use crate::lockbud::types::{callee_name, callee_name_of, Location};
use crate::lockbud::ullbc::{FnOperand, FunDeclId, TerminatorKind, TranslatedCrate};
use crate::text::{chars_of, has_prefix, seq_has_prefix, seq_suffix, vec_is, vec_starts};

verus! {

broadcast use vstd::seq_lib::lemma_seq_contains_after_push;

#[derive(Clone, Copy, Debug, PartialEq, Eq, Structural)]
pub enum CondvarApi {
    Std(StdCondvarApi),
    ParkingLot(ParkingLotCondvarApi),
}

#[derive(Clone, Copy, Debug, PartialEq, Eq, Structural)]
pub enum StdCondvarApi {
    Wait(StdWait),
    Notify(StdNotify),
}

#[derive(Clone, Copy, Debug, PartialEq, Eq, Structural)]
pub enum StdWait {
    Wait,
    WaitTimeout,
    WaitTimeoutMs,
    WaitTimeoutWhile,
    WaitWhile,
}

#[derive(Clone, Copy, Debug, PartialEq, Eq, Structural)]
pub enum StdNotify {
    NotifyAll,
    NotifyOne,
}

#[derive(Clone, Copy, Debug, PartialEq, Eq, Structural)]
pub enum ParkingLotCondvarApi {
    Wait(ParkingLotWait),
    Notify(ParkingLotNotify),
}

#[derive(Clone, Copy, Debug, PartialEq, Eq, Structural)]
pub enum ParkingLotWait {
    Wait,
    WaitFor,
    WaitUntil,
    WaitWhile,
    WaitWhileFor,
    WaitWhileUntil,
}

#[derive(Clone, Copy, Debug, PartialEq, Eq, Structural)]
pub enum ParkingLotNotify {
    NotifyAll,
    NotifyOne,
}

/// The std API named by what follows `std::sync::Condvar::` in a function's path.
pub open spec fn std_api_of_tail(tail: Seq<char>) -> Option<StdCondvarApi> {
    if has_prefix(tail, "wait::"@) {
        Some(StdCondvarApi::Wait(StdWait::Wait))
    } else if has_prefix(tail, "wait_timeout::"@) {
        Some(StdCondvarApi::Wait(StdWait::WaitTimeout))
    } else if has_prefix(tail, "wait_timeout_ms::"@) {
        Some(StdCondvarApi::Wait(StdWait::WaitTimeoutMs))
    } else if has_prefix(tail, "wait_timeout_while::"@) {
        Some(StdCondvarApi::Wait(StdWait::WaitTimeoutWhile))
    } else if has_prefix(tail, "wait_while::"@) {
        Some(StdCondvarApi::Wait(StdWait::WaitWhile))
    } else if tail == "notify_all"@ {
        Some(StdCondvarApi::Notify(StdNotify::NotifyAll))
    } else if tail == "notify_one"@ {
        Some(StdCondvarApi::Notify(StdNotify::NotifyOne))
    } else {
        None
    }
}

/// The parking_lot API named by what follows `parking_lot::Condvar::` in a function's path.
pub open spec fn parking_lot_api_of_tail(tail: Seq<char>) -> Option<ParkingLotCondvarApi> {
    if has_prefix(tail, "wait::"@) {
        Some(ParkingLotCondvarApi::Wait(ParkingLotWait::Wait))
    } else if has_prefix(tail, "wait_for::"@) {
        Some(ParkingLotCondvarApi::Wait(ParkingLotWait::WaitFor))
    } else if has_prefix(tail, "wait_until::"@) {
        Some(ParkingLotCondvarApi::Wait(ParkingLotWait::WaitUntil))
    } else if has_prefix(tail, "wait_while::"@) {
        Some(ParkingLotCondvarApi::Wait(ParkingLotWait::WaitWhile))
    } else if has_prefix(tail, "wait_while_for::"@) {
        Some(ParkingLotCondvarApi::Wait(ParkingLotWait::WaitWhileFor))
    } else if has_prefix(tail, "wait_while_until::"@) {
        Some(ParkingLotCondvarApi::Wait(ParkingLotWait::WaitWhileUntil))
    } else if tail == "notify_all"@ {
        Some(ParkingLotCondvarApi::Notify(ParkingLotNotify::NotifyAll))
    } else if tail == "notify_one"@ {
        Some(ParkingLotCondvarApi::Notify(ParkingLotNotify::NotifyOne))
    } else {
        None
    }
}

/// The condvar API that a function of this printed path is, if any.
pub open spec fn condvar_api_of_name(name: Seq<char>) -> Option<CondvarApi> {
    let std_prefix = "std::sync::Condvar::"@;
    let pl_prefix = "parking_lot::Condvar::"@;
    if has_prefix(name, std_prefix) {
        match std_api_of_tail(name.subrange(std_prefix.len() as int, name.len() as int)) {
            Some(api) => Some(CondvarApi::Std(api)),
            None => None,
        }
    } else if has_prefix(name, pl_prefix) {
        match parking_lot_api_of_tail(name.subrange(pl_prefix.len() as int, name.len() as int)) {
            Some(api) => Some(CondvarApi::ParkingLot(api)),
            None => None,
        }
    } else {
        None
    }
}

/// The condvar API that a call targets, if it targets a declared function that is one.
pub open spec fn condvar_api_spec(func: FnOperand, krate: TranslatedCrate) -> Option<CondvarApi> {
    match callee_name(func, krate) {
        Some(n) => condvar_api_of_name(n),
        None => None,
    }
}

fn std_api(tail: &Vec<char>) -> (r: Option<StdCondvarApi>)
    ensures
        r == std_api_of_tail(tail@),
{
    if vec_starts(tail, "wait::") {
        Some(StdCondvarApi::Wait(StdWait::Wait))
    } else if vec_starts(tail, "wait_timeout::") {
        Some(StdCondvarApi::Wait(StdWait::WaitTimeout))
    } else if vec_starts(tail, "wait_timeout_ms::") {
        Some(StdCondvarApi::Wait(StdWait::WaitTimeoutMs))
    } else if vec_starts(tail, "wait_timeout_while::") {
        Some(StdCondvarApi::Wait(StdWait::WaitTimeoutWhile))
    } else if vec_starts(tail, "wait_while::") {
        Some(StdCondvarApi::Wait(StdWait::WaitWhile))
    } else if vec_is(tail, "notify_all") {
        Some(StdCondvarApi::Notify(StdNotify::NotifyAll))
    } else if vec_is(tail, "notify_one") {
        Some(StdCondvarApi::Notify(StdNotify::NotifyOne))
    } else {
        None
    }
}

fn parking_lot_api(tail: &Vec<char>) -> (r: Option<ParkingLotCondvarApi>)
    ensures
        r == parking_lot_api_of_tail(tail@),
{
    if vec_starts(tail, "wait::") {
        Some(ParkingLotCondvarApi::Wait(ParkingLotWait::Wait))
    } else if vec_starts(tail, "wait_for::") {
        Some(ParkingLotCondvarApi::Wait(ParkingLotWait::WaitFor))
    } else if vec_starts(tail, "wait_until::") {
        Some(ParkingLotCondvarApi::Wait(ParkingLotWait::WaitUntil))
    } else if vec_starts(tail, "wait_while::") {
        Some(ParkingLotCondvarApi::Wait(ParkingLotWait::WaitWhile))
    } else if vec_starts(tail, "wait_while_for::") {
        Some(ParkingLotCondvarApi::Wait(ParkingLotWait::WaitWhileFor))
    } else if vec_starts(tail, "wait_while_until::") {
        Some(ParkingLotCondvarApi::Wait(ParkingLotWait::WaitWhileUntil))
    } else if vec_is(tail, "notify_all") {
        Some(ParkingLotCondvarApi::Notify(ParkingLotNotify::NotifyAll))
    } else if vec_is(tail, "notify_one") {
        Some(ParkingLotCondvarApi::Notify(ParkingLotNotify::NotifyOne))
    } else {
        None
    }
}

/// The condvar API that a call targets, if it targets a declared function
/// whose path names one of std's or parking_lot's condvar methods.
pub fn classify_condvar_api(func: &FnOperand, krate: &TranslatedCrate) -> (r: Option<CondvarApi>)
    ensures
        r == condvar_api_spec(*func, *krate),
{
    let name = match callee_name_of(func, krate) {
        Some(n) => n,
        None => return None,
    };
    let n = chars_of(name.as_str());
    let std_prefix = chars_of("std::sync::Condvar::");
    let pl_prefix = chars_of("parking_lot::Condvar::");
    if seq_has_prefix(&n, &std_prefix) {
        let tail = seq_suffix(&n, std_prefix.len());
        match std_api(&tail) {
            Some(api) => Some(CondvarApi::Std(api)),
            None => None,
        }
    } else if seq_has_prefix(&n, &pl_prefix) {
        let tail = seq_suffix(&n, pl_prefix.len());
        match parking_lot_api(&tail) {
            Some(api) => Some(CondvarApi::ParkingLot(api)),
            None => None,
        }
    } else {
        None
    }
}

/// A condvar call site: the calling function, the location of the call, and the callee.
pub type CondvarKey = (FunDeclId, Location, FunDeclId);

/// The condvar call sites of a crate, each with its API; each key appears once.
pub type CondvarCallSites = Vec<(CondvarKey, CondvarApi)>;

/// The condvar call site that block `b` of function `f` is, if it is one:
/// a block of a local function with a body whose terminator calls a declared
/// function that is a condvar API.
pub open spec fn condvar_site(krate: TranslatedCrate, f: int, b: int) -> Option<(CondvarKey, CondvarApi)> {
    match krate.fun_decl(f) {
        Some(decl) => if decl.is_local {
            match decl.body {
                Some(body) => if 0 <= b < body.body@.len() {
                    match body.body@[b].terminator.kind {
                        TerminatorKind::Call { call, .. } => match call.func {
                            FnOperand::Fun(callee) => match condvar_api_spec(call.func, krate) {
                                Some(api) => Some(
                                    (
                                        (
                                            f as FunDeclId,
                                            Location {
                                                block: b as usize,
                                                statement_index: body.body@[b].statements@.len() as usize,
                                            },
                                            callee,
                                        ),
                                        api,
                                    ),
                                ),
                                None => None,
                            },
                            _ => None,
                        },
                        _ => None,
                    }
                } else {
                    None
                },
                None => None,
            }
        } else {
            None
        },
        None => None,
    }
}

/// The condvar sites among the blocks before block `b` of function `f`, and
/// all blocks of the functions before `f`.
pub open spec fn site_before(krate: TranslatedCrate, e: (CondvarKey, CondvarApi), f: int, b: int) -> bool {
    exists|f2: int, b2: int|
        (f2 < f || (f2 == f && b2 < b)) && 0 <= f2 && 0 <= b2 && #[trigger] condvar_site(krate, f2, b2) == Some(e)
}

/// Every condvar call site of the crate's local functions, with its API.
pub fn collect_condvar_callsites(krate: &TranslatedCrate) -> (r: CondvarCallSites)
    ensures
        forall|e: (CondvarKey, CondvarApi)| #[trigger]
            r@.contains(e) <==> exists|f: int, b: int| #[trigger] condvar_site(*krate, f, b) == Some(e),
{
    let mut result: CondvarCallSites = Vec::new();
    let n = krate.fun_decls.len();
    let mut f: usize = 0;
    while f < n
        invariant
            f <= n,
            n == krate.fun_decls@.len(),
            forall|e: (CondvarKey, CondvarApi)| #[trigger] result@.contains(e) <==> site_before(*krate, e, f as int, 0),
        decreases n - f,
    {
        match &krate.fun_decls[f] {
            Some(decl) => {
                if decl.is_local {
                    match &decl.body {
                        Some(body) => {
                            let nb = body.body.len();
                            let mut b: usize = 0;
                            while b < nb
                                invariant
                                    b <= nb,
                                    f < n,
                                    n == krate.fun_decls@.len(),
                                    krate.fun_decls@[f as int] == Some(*decl),
                                    decl.is_local,
                                    decl.body == Some(*body),
                                    nb == body.body@.len(),
                                    forall|e: (CondvarKey, CondvarApi)| #[trigger]
                                        result@.contains(e) <==> site_before(*krate, e, f as int, b as int),
                                decreases nb - b,
                            {
                                let ghost before = result@;
                                let block = &body.body[b];
                                match &block.terminator.kind {
                                    TerminatorKind::Call { call, .. } => {
                                        match classify_condvar_api(&call.func, krate) {
                                            Some(api) => match &call.func {
                                                FnOperand::Fun(callee) => {
                                                    result.push(
                                                        ((f, Location::new(b, block.statements.len()), *callee), api),
                                                    );
                                                },
                                                _ => {},
                                            },
                                            None => {},
                                        }
                                    },
                                    _ => {},
                                }
                                proof {
                                    assert forall|e: (CondvarKey, CondvarApi)|
                                        site_before(*krate, e, f as int, b + 1) implies #[trigger] result@.contains(e) by {
                                        let (f2, b2) = choose|f2: int, b2: int|
                                            (f2 < f || (f2 == f && b2 < b + 1)) && 0 <= f2 && 0 <= b2 && #[trigger] condvar_site(
                                                *krate,
                                                f2,
                                                b2,
                                            ) == Some(e);
                                        if f2 == f && b2 == b {
                                            assert(result@[result@.len() - 1] == e);
                                        } else {
                                            assert(site_before(*krate, e, f as int, b as int));
                                            assert(before.contains(e));
                                        }
                                    }
                                    assert forall|e: (CondvarKey, CondvarApi)| #[trigger]
                                        result@.contains(e) implies site_before(*krate, e, f as int, b + 1) by {
                                        if before.contains(e) {
                                            assert(site_before(*krate, e, f as int, b as int));
                                            let (f2, b2) = choose|f2: int, b2: int|
                                                (f2 < f || (f2 == f && b2 < b)) && 0 <= f2 && 0 <= b2 && #[trigger] condvar_site(
                                                    *krate,
                                                    f2,
                                                    b2,
                                                ) == Some(e);
                                            assert(condvar_site(*krate, f2, b2) == Some(e));
                                        } else {
                                            assert(condvar_site(*krate, f as int, b as int) == Some(e));
                                        }
                                    }
                                }
                                b = b + 1;
                            }
                            proof {
                                assert forall|e: (CondvarKey, CondvarApi)| #[trigger]
                                    result@.contains(e) <==> site_before(*krate, e, f + 1, 0) by {
                                    if site_before(*krate, e, f + 1, 0) {
                                        let (f2, b2) = choose|f2: int, b2: int|
                                            (f2 < f + 1 || (f2 == f + 1 && b2 < 0)) && 0 <= f2 && 0 <= b2
                                                && #[trigger] condvar_site(*krate, f2, b2) == Some(e);
                                        if f2 == f {
                                            assert(b2 < nb);
                                            assert(site_before(*krate, e, f as int, nb as int));
                                        } else {
                                            assert(site_before(*krate, e, f as int, nb as int));
                                        }
                                    }
                                    if site_before(*krate, e, f as int, nb as int) {
                                        let (f2, b2) = choose|f2: int, b2: int|
                                            (f2 < f || (f2 == f && b2 < nb)) && 0 <= f2 && 0 <= b2 && #[trigger] condvar_site(
                                                *krate,
                                                f2,
                                                b2,
                                            ) == Some(e);
                                        assert(site_before(*krate, e, f + 1, 0));
                                    }
                                }
                            }
                        },
                        None => {
                            proof {
                                lemma_no_sites_in(*krate, f as int);
                            }
                        },
                    }
                } else {
                    proof {
                        lemma_no_sites_in(*krate, f as int);
                    }
                }
            },
            None => {
                proof {
                    lemma_no_sites_in(*krate, f as int);
                }
            },
        }
        f = f + 1;
    }
    proof {
        assert forall|e: (CondvarKey, CondvarApi)| #[trigger]
            result@.contains(e) <==> exists|f: int, b: int| #[trigger] condvar_site(*krate, f, b) == Some(e) by {
            if exists|f: int, b: int| #[trigger] condvar_site(*krate, f, b) == Some(e) {
                let (f2, b2) = choose|f2: int, b2: int| #[trigger] condvar_site(*krate, f2, b2) == Some(e);
                assert(0 <= f2 < n);
                assert(0 <= b2);
                assert(site_before(*krate, e, n as int, 0));
            }
        }
    }
    result
}

/// Where function `f` has no local body, it adds no site: the sites before
/// the next function are those before it.
proof fn lemma_no_sites_in(krate: TranslatedCrate, f: int)
    requires
        0 <= f,
        match krate.fun_decl(f) {
            Some(decl) => !decl.is_local || decl.body is None,
            None => true,
        },
    ensures
        forall|e: (CondvarKey, CondvarApi)| #[trigger]
            site_before(krate, e, f + 1, 0) <==> site_before(krate, e, f, 0),
{
    assert forall|e: (CondvarKey, CondvarApi)| #[trigger]
        site_before(krate, e, f + 1, 0) <==> site_before(krate, e, f, 0) by {
        if site_before(krate, e, f + 1, 0) {
            let (f2, b2) = choose|f2: int, b2: int|
                (f2 < f + 1 || (f2 == f + 1 && b2 < 0)) && 0 <= f2 && 0 <= b2 && #[trigger] condvar_site(krate, f2, b2)
                    == Some(e);
            assert(f2 != f);
            assert(site_before(krate, e, f, 0));
        }
        if site_before(krate, e, f, 0) {
            let (f2, b2) = choose|f2: int, b2: int|
                (f2 < f || (f2 == f && b2 < 0)) && 0 <= f2 && 0 <= b2 && #[trigger] condvar_site(krate, f2, b2) == Some(e);
            assert(site_before(krate, e, f + 1, 0));
        }
    }
}

/// The API recorded for call site `key`, if it is one.
pub fn condvar_api_at(sites: &CondvarCallSites, key: &CondvarKey) -> (r: Option<CondvarApi>)
    ensures
        match r {
            Some(api) => sites@.contains((*key, api)),
            None => forall|api: CondvarApi| !(#[trigger] sites@.contains((*key, api))),
        },
{
    let mut i: usize = 0;
    while i < sites.len()
        invariant
            i <= sites@.len(),
            forall|k: int| 0 <= k < i ==> (#[trigger] sites@[k]).0 != *key,
        decreases sites@.len() - i,
    {
        let (k, api) = sites[i];
        if k.0 == key.0 && k.1 == key.1 && k.2 == key.2 {
            assert(sites@[i as int] == (*key, api));
            return Some(api);
        }
        i = i + 1;
    }
    assert forall|api: CondvarApi| !(#[trigger] sites@.contains((*key, api))) by {
        if sites@.contains((*key, api)) {
            let k = choose|k: int| 0 <= k < sites@.len() && sites@[k] == (*key, api);
            assert(sites@[k].0 == *key);
        }
    }
    None
}

/// Two prefixes that differ at `i` cannot both begin `s`.
proof fn lemma_prefixes_differ(s: Seq<char>, p: Seq<char>, q: Seq<char>, i: int)
    requires
        crate::text::has_prefix(s, p),
        0 <= i < p.len(),
        i < q.len(),
        p[i] != q[i],
    ensures
        !crate::text::has_prefix(s, q),
{
    crate::text::lemma_prefix_chars(s, p);
    if crate::text::has_prefix(s, q) {
        crate::text::lemma_prefix_chars(s, q);
        assert(s[i] == p[i]);
        assert(s[i] == q[i]);
    }
}

/// What follows `std::sync::Condvar::` in a path says which API it is: each wait by the
/// name of the method, then `::` (the method's generic arguments follow), and each notify by
/// the whole rest of the path.
pub proof fn law_std_condvar_api_by_tail(tail: Seq<char>)
    ensures
        crate::text::has_prefix(tail, "wait::"@) ==> std_api_of_tail(tail) == Some(StdCondvarApi::Wait(StdWait::Wait)),
        crate::text::has_prefix(tail, "wait_timeout::"@) ==> std_api_of_tail(tail) == Some(StdCondvarApi::Wait(StdWait::WaitTimeout)),
        crate::text::has_prefix(tail, "wait_timeout_ms::"@) ==> std_api_of_tail(tail) == Some(StdCondvarApi::Wait(StdWait::WaitTimeoutMs)),
        crate::text::has_prefix(tail, "wait_timeout_while::"@) ==> std_api_of_tail(tail) == Some(StdCondvarApi::Wait(StdWait::WaitTimeoutWhile)),
        crate::text::has_prefix(tail, "wait_while::"@) ==> std_api_of_tail(tail) == Some(StdCondvarApi::Wait(StdWait::WaitWhile)),
        std_api_of_tail(tail) == Some(StdCondvarApi::Notify(StdNotify::NotifyAll)) <==> tail == "notify_all"@,
        std_api_of_tail(tail) == Some(StdCondvarApi::Notify(StdNotify::NotifyOne)) <==> tail == "notify_one"@,
{
    reveal_strlit("wait::");
    reveal_strlit("wait_timeout::");
    reveal_strlit("wait_timeout_ms::");
    reveal_strlit("wait_timeout_while::");
    reveal_strlit("wait_while::");
    reveal_strlit("notify_all");
    reveal_strlit("notify_one");
    if crate::text::has_prefix(tail, "wait::"@) {

    }
    if crate::text::has_prefix(tail, "wait_timeout::"@) {
            assert("wait_timeout::"@[4] == '_' && "wait::"@[4] == ':');
            lemma_prefixes_differ(tail, "wait_timeout::"@, "wait::"@, 4);
    }
    if crate::text::has_prefix(tail, "wait_timeout_ms::"@) {
            assert("wait_timeout_ms::"@[4] == '_' && "wait::"@[4] == ':');
            lemma_prefixes_differ(tail, "wait_timeout_ms::"@, "wait::"@, 4);
            assert("wait_timeout_ms::"@[12] == '_' && "wait_timeout::"@[12] == ':');
            lemma_prefixes_differ(tail, "wait_timeout_ms::"@, "wait_timeout::"@, 12);
    }
    if crate::text::has_prefix(tail, "wait_timeout_while::"@) {
            assert("wait_timeout_while::"@[4] == '_' && "wait::"@[4] == ':');
            lemma_prefixes_differ(tail, "wait_timeout_while::"@, "wait::"@, 4);
            assert("wait_timeout_while::"@[12] == '_' && "wait_timeout::"@[12] == ':');
            lemma_prefixes_differ(tail, "wait_timeout_while::"@, "wait_timeout::"@, 12);
            assert("wait_timeout_while::"@[13] == 'w' && "wait_timeout_ms::"@[13] == 'm');
            lemma_prefixes_differ(tail, "wait_timeout_while::"@, "wait_timeout_ms::"@, 13);
    }
    if crate::text::has_prefix(tail, "wait_while::"@) {
            assert("wait_while::"@[4] == '_' && "wait::"@[4] == ':');
            lemma_prefixes_differ(tail, "wait_while::"@, "wait::"@, 4);
            assert("wait_while::"@[5] == 'w' && "wait_timeout::"@[5] == 't');
            lemma_prefixes_differ(tail, "wait_while::"@, "wait_timeout::"@, 5);
            assert("wait_while::"@[5] == 'w' && "wait_timeout_ms::"@[5] == 't');
            lemma_prefixes_differ(tail, "wait_while::"@, "wait_timeout_ms::"@, 5);
            assert("wait_while::"@[5] == 'w' && "wait_timeout_while::"@[5] == 't');
            lemma_prefixes_differ(tail, "wait_while::"@, "wait_timeout_while::"@, 5);
    }
    if tail == "notify_all"@ {
        assert(crate::text::has_prefix(tail, "notify_all"@)) by {
            assert(tail.subrange(0, tail.len() as int) =~= tail);
        }
        assert("notify_all"@[0] == 'n' && "wait::"@[0] == 'w');
        lemma_prefixes_differ(tail, "notify_all"@, "wait::"@, 0);
        assert("notify_all"@[0] == 'n' && "wait_timeout::"@[0] == 'w');
        lemma_prefixes_differ(tail, "notify_all"@, "wait_timeout::"@, 0);
        assert("notify_all"@[0] == 'n' && "wait_timeout_ms::"@[0] == 'w');
        lemma_prefixes_differ(tail, "notify_all"@, "wait_timeout_ms::"@, 0);
        assert("notify_all"@[0] == 'n' && "wait_timeout_while::"@[0] == 'w');
        lemma_prefixes_differ(tail, "notify_all"@, "wait_timeout_while::"@, 0);
        assert("notify_all"@[0] == 'n' && "wait_while::"@[0] == 'w');
        lemma_prefixes_differ(tail, "notify_all"@, "wait_while::"@, 0);
    }
    if tail == "notify_one"@ {
        assert(crate::text::has_prefix(tail, "notify_one"@)) by {
            assert(tail.subrange(0, tail.len() as int) =~= tail);
        }
        assert("notify_one"@[0] == 'n' && "wait::"@[0] == 'w');
        lemma_prefixes_differ(tail, "notify_one"@, "wait::"@, 0);
        assert("notify_one"@[0] == 'n' && "wait_timeout::"@[0] == 'w');
        lemma_prefixes_differ(tail, "notify_one"@, "wait_timeout::"@, 0);
        assert("notify_one"@[0] == 'n' && "wait_timeout_ms::"@[0] == 'w');
        lemma_prefixes_differ(tail, "notify_one"@, "wait_timeout_ms::"@, 0);
        assert("notify_one"@[0] == 'n' && "wait_timeout_while::"@[0] == 'w');
        lemma_prefixes_differ(tail, "notify_one"@, "wait_timeout_while::"@, 0);
        assert("notify_one"@[0] == 'n' && "wait_while::"@[0] == 'w');
        lemma_prefixes_differ(tail, "notify_one"@, "wait_while::"@, 0);
    }
    assert("notify_all"@ != "notify_one"@) by {
        assert("notify_all"@[7] != "notify_one"@[7]);
    }
}

/// What follows `parking_lot::Condvar::` in a path says which API it is: each wait by the
/// name of the method, then `::` (the method's generic arguments follow), and each notify by
/// the whole rest of the path.
pub proof fn law_parking_lot_condvar_api_by_tail(tail: Seq<char>)
    ensures
        crate::text::has_prefix(tail, "wait::"@) ==> parking_lot_api_of_tail(tail) == Some(ParkingLotCondvarApi::Wait(ParkingLotWait::Wait)),
        crate::text::has_prefix(tail, "wait_for::"@) ==> parking_lot_api_of_tail(tail) == Some(ParkingLotCondvarApi::Wait(ParkingLotWait::WaitFor)),
        crate::text::has_prefix(tail, "wait_until::"@) ==> parking_lot_api_of_tail(tail) == Some(ParkingLotCondvarApi::Wait(ParkingLotWait::WaitUntil)),
        crate::text::has_prefix(tail, "wait_while::"@) ==> parking_lot_api_of_tail(tail) == Some(ParkingLotCondvarApi::Wait(ParkingLotWait::WaitWhile)),
        crate::text::has_prefix(tail, "wait_while_for::"@) ==> parking_lot_api_of_tail(tail) == Some(ParkingLotCondvarApi::Wait(ParkingLotWait::WaitWhileFor)),
        crate::text::has_prefix(tail, "wait_while_until::"@) ==> parking_lot_api_of_tail(tail) == Some(ParkingLotCondvarApi::Wait(ParkingLotWait::WaitWhileUntil)),
        parking_lot_api_of_tail(tail) == Some(ParkingLotCondvarApi::Notify(ParkingLotNotify::NotifyAll)) <==> tail == "notify_all"@,
        parking_lot_api_of_tail(tail) == Some(ParkingLotCondvarApi::Notify(ParkingLotNotify::NotifyOne)) <==> tail == "notify_one"@,
{
    reveal_strlit("wait::");
    reveal_strlit("wait_for::");
    reveal_strlit("wait_until::");
    reveal_strlit("wait_while::");
    reveal_strlit("wait_while_for::");
    reveal_strlit("wait_while_until::");
    reveal_strlit("notify_all");
    reveal_strlit("notify_one");
    if crate::text::has_prefix(tail, "wait::"@) {

    }
    if crate::text::has_prefix(tail, "wait_for::"@) {
            assert("wait_for::"@[4] == '_' && "wait::"@[4] == ':');
            lemma_prefixes_differ(tail, "wait_for::"@, "wait::"@, 4);
    }
    if crate::text::has_prefix(tail, "wait_until::"@) {
            assert("wait_until::"@[4] == '_' && "wait::"@[4] == ':');
            lemma_prefixes_differ(tail, "wait_until::"@, "wait::"@, 4);
            assert("wait_until::"@[5] == 'u' && "wait_for::"@[5] == 'f');
            lemma_prefixes_differ(tail, "wait_until::"@, "wait_for::"@, 5);
    }
    if crate::text::has_prefix(tail, "wait_while::"@) {
            assert("wait_while::"@[4] == '_' && "wait::"@[4] == ':');
            lemma_prefixes_differ(tail, "wait_while::"@, "wait::"@, 4);
            assert("wait_while::"@[5] == 'w' && "wait_for::"@[5] == 'f');
            lemma_prefixes_differ(tail, "wait_while::"@, "wait_for::"@, 5);
            assert("wait_while::"@[5] == 'w' && "wait_until::"@[5] == 'u');
            lemma_prefixes_differ(tail, "wait_while::"@, "wait_until::"@, 5);
    }
    if crate::text::has_prefix(tail, "wait_while_for::"@) {
            assert("wait_while_for::"@[4] == '_' && "wait::"@[4] == ':');
            lemma_prefixes_differ(tail, "wait_while_for::"@, "wait::"@, 4);
            assert("wait_while_for::"@[5] == 'w' && "wait_for::"@[5] == 'f');
            lemma_prefixes_differ(tail, "wait_while_for::"@, "wait_for::"@, 5);
            assert("wait_while_for::"@[5] == 'w' && "wait_until::"@[5] == 'u');
            lemma_prefixes_differ(tail, "wait_while_for::"@, "wait_until::"@, 5);
            assert("wait_while_for::"@[10] == '_' && "wait_while::"@[10] == ':');
            lemma_prefixes_differ(tail, "wait_while_for::"@, "wait_while::"@, 10);
    }
    if crate::text::has_prefix(tail, "wait_while_until::"@) {
            assert("wait_while_until::"@[4] == '_' && "wait::"@[4] == ':');
            lemma_prefixes_differ(tail, "wait_while_until::"@, "wait::"@, 4);
            assert("wait_while_until::"@[5] == 'w' && "wait_for::"@[5] == 'f');
            lemma_prefixes_differ(tail, "wait_while_until::"@, "wait_for::"@, 5);
            assert("wait_while_until::"@[5] == 'w' && "wait_until::"@[5] == 'u');
            lemma_prefixes_differ(tail, "wait_while_until::"@, "wait_until::"@, 5);
            assert("wait_while_until::"@[10] == '_' && "wait_while::"@[10] == ':');
            lemma_prefixes_differ(tail, "wait_while_until::"@, "wait_while::"@, 10);
            assert("wait_while_until::"@[11] == 'u' && "wait_while_for::"@[11] == 'f');
            lemma_prefixes_differ(tail, "wait_while_until::"@, "wait_while_for::"@, 11);
    }
    if tail == "notify_all"@ {
        assert(crate::text::has_prefix(tail, "notify_all"@)) by {
            assert(tail.subrange(0, tail.len() as int) =~= tail);
        }
        assert("notify_all"@[0] == 'n' && "wait::"@[0] == 'w');
        lemma_prefixes_differ(tail, "notify_all"@, "wait::"@, 0);
        assert("notify_all"@[0] == 'n' && "wait_for::"@[0] == 'w');
        lemma_prefixes_differ(tail, "notify_all"@, "wait_for::"@, 0);
        assert("notify_all"@[0] == 'n' && "wait_until::"@[0] == 'w');
        lemma_prefixes_differ(tail, "notify_all"@, "wait_until::"@, 0);
        assert("notify_all"@[0] == 'n' && "wait_while::"@[0] == 'w');
        lemma_prefixes_differ(tail, "notify_all"@, "wait_while::"@, 0);
        assert("notify_all"@[0] == 'n' && "wait_while_for::"@[0] == 'w');
        lemma_prefixes_differ(tail, "notify_all"@, "wait_while_for::"@, 0);
        assert("notify_all"@[0] == 'n' && "wait_while_until::"@[0] == 'w');
        lemma_prefixes_differ(tail, "notify_all"@, "wait_while_until::"@, 0);
    }
    if tail == "notify_one"@ {
        assert(crate::text::has_prefix(tail, "notify_one"@)) by {
            assert(tail.subrange(0, tail.len() as int) =~= tail);
        }
        assert("notify_one"@[0] == 'n' && "wait::"@[0] == 'w');
        lemma_prefixes_differ(tail, "notify_one"@, "wait::"@, 0);
        assert("notify_one"@[0] == 'n' && "wait_for::"@[0] == 'w');
        lemma_prefixes_differ(tail, "notify_one"@, "wait_for::"@, 0);
        assert("notify_one"@[0] == 'n' && "wait_until::"@[0] == 'w');
        lemma_prefixes_differ(tail, "notify_one"@, "wait_until::"@, 0);
        assert("notify_one"@[0] == 'n' && "wait_while::"@[0] == 'w');
        lemma_prefixes_differ(tail, "notify_one"@, "wait_while::"@, 0);
        assert("notify_one"@[0] == 'n' && "wait_while_for::"@[0] == 'w');
        lemma_prefixes_differ(tail, "notify_one"@, "wait_while_for::"@, 0);
        assert("notify_one"@[0] == 'n' && "wait_while_until::"@[0] == 'w');
        lemma_prefixes_differ(tail, "notify_one"@, "wait_while_until::"@, 0);
    }
    assert("notify_all"@ != "notify_one"@) by {
        assert("notify_all"@[7] != "notify_one"@[7]);
    }
}

/// A path is a condvar API only under `std::sync::Condvar::` or `parking_lot::Condvar::`, and
/// then it is the API that the rest of the path names for that library; so the std
/// `notify_one` is exactly the path `std::sync::Condvar::notify_one`, and likewise for the
/// other notifies.
pub proof fn law_condvar_api_by_path(name: Seq<char>)
    ensures
        !crate::text::has_prefix(name, "std::sync::Condvar::"@) && !crate::text::has_prefix(name, "parking_lot::Condvar::"@)
            ==> condvar_api_of_name(name) is None,
        crate::text::has_prefix(name, "std::sync::Condvar::"@) ==> condvar_api_of_name(name) == match std_api_of_tail(
            name.subrange(20, name.len() as int),
        ) {
            Some(api) => Some(CondvarApi::Std(api)),
            None => None,
        },
        crate::text::has_prefix(name, "parking_lot::Condvar::"@) ==> condvar_api_of_name(name) == match parking_lot_api_of_tail(
            name.subrange(22, name.len() as int),
        ) {
            Some(api) => Some(CondvarApi::ParkingLot(api)),
            None => None,
        },
        condvar_api_of_name(name) == Some(CondvarApi::Std(StdCondvarApi::Notify(StdNotify::NotifyOne))) <==> name
            == "std::sync::Condvar::notify_one"@,
        condvar_api_of_name(name) == Some(CondvarApi::Std(StdCondvarApi::Notify(StdNotify::NotifyAll))) <==> name
            == "std::sync::Condvar::notify_all"@,
        condvar_api_of_name(name) == Some(CondvarApi::ParkingLot(ParkingLotCondvarApi::Notify(ParkingLotNotify::NotifyOne)))
            <==> name == "parking_lot::Condvar::notify_one"@,
        condvar_api_of_name(name) == Some(CondvarApi::ParkingLot(ParkingLotCondvarApi::Notify(ParkingLotNotify::NotifyAll)))
            <==> name == "parking_lot::Condvar::notify_all"@,
{
    let sp = "std::sync::Condvar::"@;
    let pp = "parking_lot::Condvar::"@;
    reveal_strlit("std::sync::Condvar::");
    reveal_strlit("parking_lot::Condvar::");
    reveal_strlit("std::sync::Condvar::notify_one");
    reveal_strlit("std::sync::Condvar::notify_all");
    reveal_strlit("parking_lot::Condvar::notify_one");
    reveal_strlit("parking_lot::Condvar::notify_all");
    reveal_strlit("notify_one");
    reveal_strlit("notify_all");
    assert(sp.len() == 20 && pp.len() == 22);
    let tail_s = name.subrange(20, name.len() as int);
    let tail_p = name.subrange(22, name.len() as int);
    law_std_condvar_api_by_tail(tail_s);
    law_parking_lot_condvar_api_by_tail(tail_p);
    if crate::text::has_prefix(name, sp) {
        lemma_prefixes_differ(name, sp, pp, 0);
        assert(name =~= sp + tail_s);
    }
    if crate::text::has_prefix(name, pp) {
        assert(name =~= pp + tail_p);
    }
    assert("std::sync::Condvar::notify_one"@ =~= sp + "notify_one"@);
    assert("std::sync::Condvar::notify_all"@ =~= sp + "notify_all"@);
    assert("parking_lot::Condvar::notify_one"@ =~= pp + "notify_one"@);
    assert("parking_lot::Condvar::notify_all"@ =~= pp + "notify_all"@);
    if name == sp + "notify_one"@ || name == sp + "notify_all"@ {
        assert(name.subrange(0, 20) =~= sp);
        assert(tail_s =~= name.subrange(20, name.len() as int));
        assert(name == sp + "notify_one"@ ==> tail_s =~= "notify_one"@);
        assert(name == sp + "notify_all"@ ==> tail_s =~= "notify_all"@);
    }
    if name == pp + "notify_one"@ || name == pp + "notify_all"@ {
        assert(name.subrange(0, 22) =~= pp);
        lemma_prefixes_differ(name, pp, sp, 0);
        assert(name == pp + "notify_one"@ ==> tail_p =~= "notify_one"@);
        assert(name == pp + "notify_all"@ ==> tail_p =~= "notify_all"@);
    }
}

} // verus!
