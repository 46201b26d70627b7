//! Channels of `std::sync::mpsc`: a blocking send on a rendezvous channel
//! that comes before the receive it waits for, and receives with no send.

use vstd::prelude::*;

use crate::lockbud::atomic::{build_ref_places, fun_name_or_empty, loc_span, span_for_loc, text};
use crate::lockbud::detector::{blocks_refs, lookup_ref, ref_target};
use crate::lockbud::memory::{is_reachable, loc_reachable};
use crate::lockbud::render::{format_span, span_text};
use crate::lockbud::report::{
    ChannelDeadlockDiagnosis, MissingSendDiagnosis, OrphanSenderDiagnosis, Report, ReportContent,
};
use crate::lockbud::types::{callee_name, callee_name_of, fun_name, Location};
use crate::lockbud::ullbc::{
    base_local, operand_place, BlockData, ExprBody, FnOperand, FunDeclId, LocalId, Operand, Place, PlaceKind, ProjectionElem,
    Rvalue, Statement, StatementKind, TerminatorKind, TranslatedCrate,
};
use crate::text::{chars_of, has_prefix, has_sub, vec_has, vec_starts};

verus! {

#[derive(Clone, Copy, Debug, PartialEq, Eq, Structural)]
pub enum ChannelApi {
    Channel,
    SyncChannel,
    Send,
    Recv,
}

/// The channel API that a function of this printed path is, if any.
pub open spec fn channel_api_of_name(name: Seq<char>) -> Option<ChannelApi> {
    if has_prefix(name, "std::sync::mpsc::sync_channel"@) {
        Some(ChannelApi::SyncChannel)
    } else if has_prefix(name, "std::sync::mpsc::channel"@) {
        Some(ChannelApi::Channel)
    } else if has_sub(name, "SyncSender"@) && has_sub(name, "::send"@) {
        Some(ChannelApi::Send)
    } else if has_sub(name, "Sender"@) && has_sub(name, "::send"@) {
        Some(ChannelApi::Send)
    } else if has_sub(name, "Receiver"@) && has_sub(name, "::recv"@) {
        Some(ChannelApi::Recv)
    } else {
        None
    }
}

/// The channel API that a call targets, if it targets a declared function that is one.
pub open spec fn channel_api_spec(func: FnOperand, krate: TranslatedCrate) -> Option<ChannelApi> {
    match callee_name(func, krate) {
        Some(n) => channel_api_of_name(n),
        None => None,
    }
}

/// The channel API that a call targets, judged by the path of the declared
/// function it calls.
pub fn classify_channel_api(func: &FnOperand, krate: &TranslatedCrate) -> (r: Option<ChannelApi>)
    ensures
        r == channel_api_spec(*func, *krate),
{
    let name = match callee_name_of(func, krate) {
        Some(n) => n,
        None => return None,
    };
    let n = chars_of(name.as_str());
    if vec_starts(&n, "std::sync::mpsc::sync_channel") {
        Some(ChannelApi::SyncChannel)
    } else if vec_starts(&n, "std::sync::mpsc::channel") {
        Some(ChannelApi::Channel)
    } else if vec_has(&n, "SyncSender") && vec_has(&n, "::send") {
        Some(ChannelApi::Send)
    } else if vec_has(&n, "Sender") && vec_has(&n, "::send") {
        Some(ChannelApi::Send)
    } else if vec_has(&n, "Receiver") && vec_has(&n, "::recv") {
        Some(ChannelApi::Recv)
    } else {
        None
    }
}

/// A channel, numbered in the order in which its constructor is found.
#[derive(Clone, Copy, Debug, PartialEq, Eq, Structural)]
pub struct ChannelId(pub usize);

#[derive(Clone, Copy, Debug, PartialEq, Eq, Structural)]
pub enum EndpointKind {
    Sender,
    Receiver,
}

/// One end of a channel.
#[derive(Clone, Copy, Debug, PartialEq, Eq, Structural)]
pub struct EndpointId {
    pub channel: ChannelId,
    pub kind: EndpointKind,
}

/// Where an endpoint was made, and where it was used.
#[derive(Debug)]
pub struct EndpointLifetime {
    pub creation_loc: (FunDeclId, Location),
    pub drop_locs: Vec<(FunDeclId, Location)>,
    pub sync_locs: Vec<(FunDeclId, Location)>,
    pub escapes: bool,
    pub moved_to_thread: bool,
}

/// A call of a channel API.
#[derive(Clone, Copy, Debug)]
pub struct ChannelCallSite {
    pub api: ChannelApi,
    pub loc: Location,
    /// For a constructor: the local that receives the pair of endpoints.
    pub tuple_dest: Option<LocalId>,
    /// For a send or a receive: the local of the endpoint.
    pub ch_local: Option<LocalId>,
    /// For a send or a receive: the pair local of the constructor it belongs to.
    pub tuple_base: Option<LocalId>,
    /// For a send or a receive: the field of the pair (0 for the sender).
    pub tuple_field_index: Option<usize>,
}

/// The channel calls of each function that has some, one entry per function.
pub type ChannelCallSites = Vec<(FunDeclId, Vec<ChannelCallSite>)>;

// ---------------------------------------------------------------------------
// Moves and tuple fields
// ---------------------------------------------------------------------------

/// The value recorded last for `k`.
pub open spec fn last_entry<V>(m: Seq<(LocalId, V)>, k: LocalId) -> Option<V>
    decreases m.len(),
{
    if m.len() == 0 {
        None
    } else if m.last().0 == k {
        Some(m.last().1)
    } else {
        last_entry(m.drop_last(), k)
    }
}

/// The value recorded last for `k`.
fn lookup_last<V: Copy>(m: &Vec<(LocalId, V)>, k: LocalId) -> (r: Option<V>)
    ensures
        r == last_entry(m@, k),
{
    let mut i: usize = m.len();
    assert(m@.take(i as int) =~= m@);
    while i > 0
        invariant
            i <= m@.len(),
            last_entry(m@, k) == last_entry(m@.take(i as int), k),
        decreases i,
    {
        assert(m@.take(i as int).drop_last() =~= m@.take(i - 1));
        if m[i - 1].0 == k {
            return Some(m[i - 1].1);
        }
        i = i - 1;
    }
    None
}

/// A plain copy or move of one local into another: `(dest, source)`.
pub open spec fn stmt_move(s: Statement) -> Option<(LocalId, LocalId)> {
    match s.kind {
        StatementKind::Assign(dest, rv) => match rv {
            Rvalue::Use(Operand::Move(p)) => match (base_local(dest), base_local(p)) {
                (Some(d), Some(src)) => Some((d, src)),
                _ => None,
            },
            Rvalue::Use(Operand::Copy(p)) => match (base_local(dest), base_local(p)) {
                (Some(d), Some(src)) => Some((d, src)),
                _ => None,
            },
            _ => None,
        },
        _ => None,
    }
}

/// A field of a local read into another local: `(dest, (base, field))`.
pub open spec fn stmt_field(s: Statement) -> Option<(LocalId, (LocalId, usize))> {
    match s.kind {
        StatementKind::Assign(dest, rv) => match rv {
            Rvalue::Use(Operand::Move(p)) => field_read(dest, p),
            Rvalue::Use(Operand::Copy(p)) => field_read(dest, p),
            _ => None,
        },
        _ => None,
    }
}

pub open spec fn field_read(dest: Place, p: Place) -> Option<(LocalId, (LocalId, usize))> {
    match p.kind {
        PlaceKind::Projection(base, ProjectionElem::Field(_, idx)) => match (base_local(dest), base_local(*base)) {
            (Some(d), Some(b)) => Some((d, (b, idx))),
            _ => None,
        },
        _ => None,
    }
}

pub open spec fn stmts_entries<V>(ss: Seq<Statement>, f: spec_fn(Statement) -> Option<(LocalId, V)>) -> Seq<
    (LocalId, V),
>
    decreases ss.len(),
{
    if ss.len() == 0 {
        Seq::empty()
    } else {
        match f(ss.last()) {
            Some(x) => stmts_entries(ss.drop_last(), f).push(x),
            None => stmts_entries(ss.drop_last(), f),
        }
    }
}

/// What `f` finds in the statements of each block, block by block, in order.
pub open spec fn blocks_entries<V>(bs: Seq<BlockData>, f: spec_fn(Statement) -> Option<(LocalId, V)>) -> Seq<
    (LocalId, V),
>
    decreases bs.len(),
{
    if bs.len() == 0 {
        Seq::empty()
    } else {
        blocks_entries(bs.drop_last(), f) + stmts_entries(bs.last().statements@, f)
    }
}

pub open spec fn move_fn() -> spec_fn(Statement) -> Option<(LocalId, LocalId)> {
    |s: Statement| stmt_move(s)
}

pub open spec fn field_fn() -> spec_fn(Statement) -> Option<(LocalId, (LocalId, usize))> {
    |s: Statement| stmt_field(s)
}

fn move_of(s: &Statement) -> (r: Option<(LocalId, LocalId)>)
    ensures
        r == stmt_move(*s),
{
    match &s.kind {
        StatementKind::Assign(dest, rvalue) => match rvalue {
            Rvalue::Use(Operand::Move(p)) | Rvalue::Use(Operand::Copy(p)) => match (dest.local_id(), p.local_id()) {
                (Some(d), Some(src)) => Some((d, src)),
                _ => None,
            },
            _ => None,
        },
        _ => None,
    }
}

fn field_of(s: &Statement) -> (r: Option<(LocalId, (LocalId, usize))>)
    ensures
        r == stmt_field(*s),
{
    match &s.kind {
        StatementKind::Assign(dest, rvalue) => match rvalue {
            Rvalue::Use(Operand::Move(p)) | Rvalue::Use(Operand::Copy(p)) => match &p.kind {
                PlaceKind::Projection(base, ProjectionElem::Field(_, idx)) => match (dest.local_id(), base.local_id()) {
                    (Some(d), Some(b)) => Some((d, (b, *idx))),
                    _ => None,
                },
                _ => None,
            },
            _ => None,
        },
        _ => None,
    }
}

/// The plain copies and moves between locals of a body, in order.
fn build_move_sources(body: &ExprBody) -> (r: Vec<(LocalId, LocalId)>)
    ensures
        r@ == blocks_entries(body.body@, move_fn()),
{
    let mut moves: Vec<(LocalId, LocalId)> = Vec::new();
    let mut b: usize = 0;
    while b < body.body.len()
        invariant
            b <= body.body@.len(),
            moves@ == blocks_entries(body.body@.take(b as int), move_fn()),
        decreases body.body@.len() - b,
    {
        let block = &body.body[b];
        let ghost start = moves@;
        let mut k: usize = 0;
        while k < block.statements.len()
            invariant
                k <= block.statements@.len(),
                moves@ == start + stmts_entries(block.statements@.take(k as int), move_fn()),
            decreases block.statements@.len() - k,
        {
            proof {
                assert(block.statements@.take(k + 1).drop_last() =~= block.statements@.take(k as int));
                assert(block.statements@.take(k + 1).last() == block.statements@[k as int]);
            }
            match move_of(&block.statements[k]) {
                Some(x) => moves.push(x),
                None => {},
            }
            assert(moves@ =~= start + stmts_entries(block.statements@.take(k + 1), move_fn()));
            k = k + 1;
        }
        proof {
            assert(block.statements@.take(block.statements@.len() as int) =~= block.statements@);
            assert(body.body@.take(b + 1).drop_last() =~= body.body@.take(b as int));
            assert(body.body@.take(b + 1).last() == body.body@[b as int]);
        }
        b = b + 1;
    }
    assert(body.body@.take(body.body@.len() as int) =~= body.body@);
    moves
}

/// The reads of a pair's fields into locals of a body, in order.
fn build_tuple_fields(body: &ExprBody) -> (r: Vec<(LocalId, (LocalId, usize))>)
    ensures
        r@ == blocks_entries(body.body@, field_fn()),
{
    let mut fields: Vec<(LocalId, (LocalId, usize))> = Vec::new();
    let mut b: usize = 0;
    while b < body.body.len()
        invariant
            b <= body.body@.len(),
            fields@ == blocks_entries(body.body@.take(b as int), field_fn()),
        decreases body.body@.len() - b,
    {
        let block = &body.body[b];
        let ghost start = fields@;
        let mut k: usize = 0;
        while k < block.statements.len()
            invariant
                k <= block.statements@.len(),
                fields@ == start + stmts_entries(block.statements@.take(k as int), field_fn()),
            decreases block.statements@.len() - k,
        {
            proof {
                assert(block.statements@.take(k + 1).drop_last() =~= block.statements@.take(k as int));
                assert(block.statements@.take(k + 1).last() == block.statements@[k as int]);
            }
            match field_of(&block.statements[k]) {
                Some(x) => fields.push(x),
                None => {},
            }
            assert(fields@ =~= start + stmts_entries(block.statements@.take(k + 1), field_fn()));
            k = k + 1;
        }
        proof {
            assert(block.statements@.take(block.statements@.len() as int) =~= block.statements@);
            assert(body.body@.take(b + 1).drop_last() =~= body.body@.take(b as int));
            assert(body.body@.take(b + 1).last() == body.body@[b as int]);
        }
        b = b + 1;
    }
    assert(body.body@.take(body.body@.len() as int) =~= body.body@);
    fields
}

/// The local that a place stands for: the source of the last copy or move
/// into its local, else the local of what it last borrowed, else its own local.
pub open spec fn resolve_local_spec(
    place: Place,
    refs: Seq<(LocalId, Place)>,
    moves: Seq<(LocalId, LocalId)>,
) -> Option<LocalId> {
    match base_local(place) {
        None => None,
        Some(l) => match last_entry(moves, l) {
            Some(src) => Some(src),
            None => match ref_target(refs, l) {
                Some(u) => base_local(u),
                None => Some(l),
            },
        },
    }
}

fn resolve_local(place: &Place, ref_places: &Vec<(LocalId, Place)>, move_sources: &Vec<(LocalId, LocalId)>) -> (r:
    Option<LocalId>)
    ensures
        r == resolve_local_spec(*place, ref_places@, move_sources@),
{
    let local = match place.local_id() {
        Some(l) => l,
        None => return None,
    };
    match lookup_last(move_sources, local) {
        Some(src) => return Some(src),
        None => {},
    }
    match lookup_ref(ref_places, local) {
        Some(underlying) => underlying.local_id(),
        None => Some(local),
    }
}

// ---------------------------------------------------------------------------
// Collecting the calls
// ---------------------------------------------------------------------------

/// Some constructor among `prev` made the pair `base`.
pub open spec fn has_ctor(prev: Seq<ChannelCallSite>, base: LocalId) -> bool {
    exists|k: int|
        0 <= k < prev.len() && ((#[trigger] prev[k]).api == ChannelApi::Channel || prev[k].api
            == ChannelApi::SyncChannel) && prev[k].tuple_dest == Some(base)
}

/// The endpoint local of a send or receive: its first argument, resolved.
pub open spec fn endpoint_local(args: Seq<Operand>, refs: Seq<(LocalId, Place)>, moves: Seq<(LocalId, LocalId)>) -> Option<
    LocalId,
> {
    if args.len() > 0 {
        match args[0] {
            Operand::Copy(p) => resolve_local_spec(p, refs, moves),
            Operand::Move(p) => resolve_local_spec(p, refs, moves),
            Operand::Const(_) => None,
        }
    } else {
        None
    }
}

/// The channel call that block `b` ends in, given the calls `prev` found
/// before it in the same body.
pub open spec fn channel_site_of(
    krate: TranslatedCrate,
    body: ExprBody,
    b: int,
    prev: Seq<ChannelCallSite>,
) -> Option<ChannelCallSite> {
    let refs = blocks_refs(body.body@);
    let moves = blocks_entries(body.body@, move_fn());
    let fields = blocks_entries(body.body@, field_fn());
    let loc = Location { block: b as usize, statement_index: body.body@[b].statements@.len() as usize };
    match body.body@[b].terminator.kind {
        TerminatorKind::Call { call, .. } => match channel_api_spec(call.func, krate) {
            Some(api) => if api == ChannelApi::Channel || api == ChannelApi::SyncChannel {
                Some(
                    ChannelCallSite {
                        api,
                        loc,
                        tuple_dest: base_local(call.dest),
                        ch_local: None,
                        tuple_base: None,
                        tuple_field_index: None,
                    },
                )
            } else {
                let ch = endpoint_local(call.args@, refs, moves);
                let tf = match ch {
                    Some(l) => last_entry(fields, l),
                    None => None,
                };
                let (tb, fi) = match tf {
                    Some((base, idx)) => if has_ctor(prev, base) {
                        (Some(base), Some(idx))
                    } else {
                        (None, None)
                    },
                    None => (None, None),
                };
                Some(ChannelCallSite { api, loc, tuple_dest: None, ch_local: ch, tuple_base: tb, tuple_field_index: fi })
            },
            None => None,
        },
        _ => None,
    }
}

/// The channel calls of the first `n` blocks, in order.
pub open spec fn channel_sites_upto(krate: TranslatedCrate, body: ExprBody, n: int) -> Seq<ChannelCallSite>
    decreases n,
{
    if n <= 0 {
        Seq::empty()
    } else {
        let prev = channel_sites_upto(krate, body, n - 1);
        match channel_site_of(krate, body, n - 1, prev) {
            Some(s) => prev.push(s),
            None => prev,
        }
    }
}

/// Each call lies in the body of its function.
pub open spec fn channel_sites_valid(krate: TranslatedCrate, sites: Seq<(FunDeclId, Vec<ChannelCallSite>)>) -> bool {
    forall|i: int, j: int|
        0 <= i < sites.len() && 0 <= j < sites[i].1@.len() ==> match krate.body_of(sites[i].0 as int) {
            Some(body) => (#[trigger] sites[i].1@[j]).loc.block < body.body@.len(),
            None => true,
        }
}

/// Whether some constructor among the sites made the pair `base`.
fn ctor_made(sites: &Vec<ChannelCallSite>, base: LocalId) -> (r: bool)
    ensures
        r == has_ctor(sites@, base),
{
    let mut k: usize = 0;
    while k < sites.len()
        invariant
            k <= sites@.len(),
            forall|j: int|
                0 <= j < k ==> !(((#[trigger] sites@[j]).api == ChannelApi::Channel || sites@[j].api
                    == ChannelApi::SyncChannel) && sites@[j].tuple_dest == Some(base)),
        decreases sites@.len() - k,
    {
        let s = sites[k];
        if (s.api == ChannelApi::Channel || s.api == ChannelApi::SyncChannel) && s.tuple_dest == Some(base) {
            return true;
        }
        k = k + 1;
    }
    false
}

/// The channel calls of one body, in the order of its blocks.
fn channel_sites_of_body(krate: &TranslatedCrate, body: &ExprBody) -> (r: Vec<ChannelCallSite>)
    ensures
        r@ == channel_sites_upto(*krate, *body, body.body@.len() as int),
        forall|j: int| 0 <= j < r@.len() ==> (#[trigger] r@[j]).loc.block < body.body@.len(),
{
    let ref_places = build_ref_places(body);
    let move_sources = build_move_sources(body);
    let tuple_fields = build_tuple_fields(body);
    let mut sites: Vec<ChannelCallSite> = Vec::new();
    let mut b: usize = 0;
    while b < body.body.len()
        invariant
            b <= body.body@.len(),
            ref_places@ == blocks_refs(body.body@),
            move_sources@ == blocks_entries(body.body@, move_fn()),
            tuple_fields@ == blocks_entries(body.body@, field_fn()),
            sites@ == channel_sites_upto(*krate, *body, b as int),
            forall|j: int| 0 <= j < sites@.len() ==> (#[trigger] sites@[j]).loc.block < b,
        decreases body.body@.len() - b,
    {
        let block = &body.body[b];
        let term_loc = Location::new(b, block.statements.len());
        match &block.terminator.kind {
            TerminatorKind::Call { call, .. } => {
                match classify_channel_api(&call.func, krate) {
                    Some(api) => {
                        if api == ChannelApi::Channel || api == ChannelApi::SyncChannel {
                            sites.push(
                                ChannelCallSite {
                                    api,
                                    loc: term_loc,
                                    tuple_dest: call.dest.local_id(),
                                    ch_local: None,
                                    tuple_base: None,
                                    tuple_field_index: None,
                                },
                            );
                        } else {
                            let ch_local: Option<LocalId> = if call.args.len() > 0 {
                                match &call.args[0] {
                                    Operand::Copy(p) | Operand::Move(p) => resolve_local(
                                        p,
                                        &ref_places,
                                        &move_sources,
                                    ),
                                    Operand::Const(_) => None,
                                }
                            } else {
                                None
                            };
                            let tf: Option<(LocalId, usize)> = match ch_local {
                                Some(l) => lookup_last(&tuple_fields, l),
                                None => None,
                            };
                            let (tuple_base, field_index): (Option<LocalId>, Option<usize>) = match tf {
                                Some((base, idx)) => if ctor_made(&sites, base) {
                                    (Some(base), Some(idx))
                                } else {
                                    (None, None)
                                },
                                None => (None, None),
                            };
                            sites.push(
                                ChannelCallSite {
                                    api,
                                    loc: term_loc,
                                    tuple_dest: None,
                                    ch_local,
                                    tuple_base,
                                    tuple_field_index: field_index,
                                },
                            );
                        }
                    },
                    None => {},
                }
            },
            _ => {},
        }
        b = b + 1;
    }
    sites
}

/// Every channel call of the crate's local functions, grouped by function
/// in order, each group in the order of its blocks.
pub fn collect_channel_callsites(krate: &TranslatedCrate) -> (r: ChannelCallSites)
    ensures
        channel_sites_valid(*krate, r@),
        forall|i: int, j: int| 0 <= i < j < r@.len() ==> r@[i].0 < r@[j].0,
        forall|i: int|
            0 <= i < r@.len() ==> {
                let f = (#[trigger] r@[i]).0 as int;
                &&& r@[i].1@.len() > 0
                &&& krate.fun_decl(f) is Some
                &&& krate.fun_decl(f)->0.is_local
                &&& krate.fun_decl(f)->0.body is Some
                &&& r@[i].1@ == channel_sites_upto(
                    *krate,
                    krate.fun_decl(f)->0.body->0,
                    krate.fun_decl(f)->0.body->0.body@.len() as int,
                )
            },
{
    let mut result: ChannelCallSites = Vec::new();
    let mut f: usize = 0;
    while f < krate.fun_decls.len()
        invariant
            f <= krate.fun_decls@.len(),
            channel_sites_valid(*krate, result@),
            forall|i: int| 0 <= i < result@.len() ==> (#[trigger] result@[i]).0 < f,
            forall|i: int, j: int| 0 <= i < j < result@.len() ==> result@[i].0 < result@[j].0,
            forall|i: int|
                0 <= i < result@.len() ==> {
                    let g = (#[trigger] result@[i]).0 as int;
                    &&& result@[i].1@.len() > 0
                    &&& krate.fun_decl(g) is Some
                    &&& krate.fun_decl(g)->0.is_local
                    &&& krate.fun_decl(g)->0.body is Some
                    &&& result@[i].1@ == channel_sites_upto(
                        *krate,
                        krate.fun_decl(g)->0.body->0,
                        krate.fun_decl(g)->0.body->0.body@.len() as int,
                    )
                },
        decreases krate.fun_decls@.len() - f,
    {
        match &krate.fun_decls[f] {
            Some(fun_decl) => {
                match &fun_decl.body {
                    Some(body) => {
                        if fun_decl.is_local {
                            let sites = channel_sites_of_body(krate, body);
                            if sites.len() > 0 {
                                let ghost before = result@;
                                result.push((f, sites));
                                proof {
                                    assert forall|i: int, j: int|
                                        0 <= i < result@.len() && 0 <= j < result@[i].1@.len() implies match krate.body_of(
                                        result@[i].0 as int,
                                    ) {
                                        Some(bd) => (#[trigger] result@[i].1@[j]).loc.block < bd.body@.len(),
                                        None => true,
                                    } by {
                                        if i < before.len() {
                                            assert(result@[i] == before[i]);
                                        }
                                    }
                                }
                            }
                        }
                    },
                    None => {},
                }
            },
            None => {},
        }
        f = f + 1;
    }
    result
}


// ---------------------------------------------------------------------------
// Rendezvous deadlocks
// ---------------------------------------------------------------------------

pub open spec fn channel_deadlock_explanation() -> Seq<char> {
    "Blocking send on sync_channel is reachable before recv in the same thread"@
}

/// Send `i` and receive `j` of entry `e` use the same rendezvous channel, and
/// control can pass from the send to the receive.
pub open spec fn deadlock_pair(
    krate: TranslatedCrate,
    sites: Seq<(FunDeclId, Vec<ChannelCallSite>)>,
    e: int,
    i: int,
    j: int,
) -> bool {
    &&& 0 <= e < sites.len()
    &&& 0 <= i < sites[e].1@.len()
    &&& 0 <= j < sites[e].1@.len()
    &&& krate.body_of(sites[e].0 as int) is Some
    &&& {
        let ss = sites[e].1@;
        &&& ss[i].api == ChannelApi::Send
        &&& ss[j].api == ChannelApi::Recv
        &&& ss[i].ch_local is Some
        &&& ss[j].ch_local is Some
        &&& ss[i].tuple_base is Some
        &&& ss[j].tuple_base == ss[i].tuple_base
        &&& exists|k: int|
            0 <= k < ss.len() && (#[trigger] ss[k]).api == ChannelApi::SyncChannel && ss[k].tuple_dest
                == ss[i].tuple_base
        &&& loc_reachable(krate.body_of(sites[e].0 as int)->0, ss[i].loc, ss[j].loc)
    }
}

/// Report `r` describes the pair `(i, j)` of entry `e`.
pub open spec fn describes_deadlock(
    krate: TranslatedCrate,
    sites: Seq<(FunDeclId, Vec<ChannelCallSite>)>,
    e: int,
    i: int,
    j: int,
    r: Report,
) -> bool {
    let body = krate.body_of(sites[e].0 as int)->0;
    let d = r->ChannelDeadlock_0.diagnosis;
    &&& deadlock_pair(krate, sites, e, i, j)
    &&& d.fn_name@ == fun_name(krate, sites[e].0 as int)->0
    &&& d.send_span@ == span_text(loc_span(body, sites[e].1@[i].loc))
    &&& d.recv_span@ == span_text(loc_span(body, sites[e].1@[j].loc))
}

/// A rendezvous deadlock report, for a send and a receive that justify it.
pub open spec fn is_channel_deadlock_report(
    krate: TranslatedCrate,
    sites: Seq<(FunDeclId, Vec<ChannelCallSite>)>,
    r: Report,
) -> bool {
    &&& r is ChannelDeadlock
    &&& r->ChannelDeadlock_0.bug_kind@ == "ChannelDeadlock"@
    &&& r->ChannelDeadlock_0.possibility@ == "Possibly"@
    &&& r->ChannelDeadlock_0.explanation@ == channel_deadlock_explanation()
    &&& r->ChannelDeadlock_0.diagnosis.explanation@ == channel_deadlock_explanation()
    &&& r->ChannelDeadlock_0.diagnosis.channel_type@ == "std::sync::mpsc::sync_channel"@
    &&& exists|e: int, i: int, j: int| #[trigger] describes_deadlock(krate, sites, e, i, j, r)
}

/// Some `sync_channel` call among `ss` made the pair `t`.
pub open spec fn is_sync_pair(ss: Seq<ChannelCallSite>, t: LocalId) -> bool {
    exists|m: int| 0 <= m < ss.len() && (#[trigger] ss[m]).api == ChannelApi::SyncChannel && ss[m].tuple_dest == Some(t)
}

/// Send `i` and receive `j` of entry `e` are on pair `t` and deadlock.
pub open spec fn pair_hit(krate: TranslatedCrate, sites: Seq<(FunDeclId, Vec<ChannelCallSite>)>, e: int, t: LocalId, i: int, j: int) -> bool {
    deadlock_pair(krate, sites, e, i, j) && sites[e].1@[i].tuple_base == Some(t)
}

/// The receives among the first `j` sites of entry `e` that deadlock with send `i` on pair `t`.
pub open spec fn hits_in(
    krate: TranslatedCrate,
    sites: Seq<(FunDeclId, Vec<ChannelCallSite>)>,
    e: int,
    t: LocalId,
    i: int,
    j: int,
) -> Seq<(int, int)>
    decreases j,
{
    if j <= 0 {
        Seq::empty()
    } else {
        hits_in(krate, sites, e, t, i, j - 1) + if pair_hit(krate, sites, e, t, i, j - 1) {
            seq![(i, j - 1)]
        } else {
            Seq::empty()
        }
    }
}

/// The deadlocking send and receive pairs on pair `t` among sends before `i`, in order.
pub open spec fn hits_upto(
    krate: TranslatedCrate,
    sites: Seq<(FunDeclId, Vec<ChannelCallSite>)>,
    e: int,
    t: LocalId,
    i: int,
) -> Seq<(int, int)>
    decreases i,
{
    if i <= 0 {
        Seq::empty()
    } else {
        hits_upto(krate, sites, e, t, i - 1) + hits_in(krate, sites, e, t, i - 1, sites[e].1@.len() as int)
    }
}

proof fn lemma_no_hits(krate: TranslatedCrate, sites: Seq<(FunDeclId, Vec<ChannelCallSite>)>, e: int, t: LocalId, i: int, j: int)
    requires
        forall|k: int| 0 <= k < j ==> !pair_hit(krate, sites, e, t, i, k),
    ensures
        hits_in(krate, sites, e, t, i, j).len() == 0,
    decreases j,
{
    if j > 0 {
        lemma_no_hits(krate, sites, e, t, i, j - 1);
    }
}

/// Reports each send on pair `t` from which control reaches a receive on it.
fn deadlocks_for_pair(
    krate: &TranslatedCrate,
    channel_callsites: &ChannelCallSites,
    e: usize,
    body: &ExprBody,
    t: LocalId,
    reports: &mut Vec<Report>,
)
    requires
        channel_sites_valid(*krate, channel_callsites@),
        e < channel_callsites@.len(),
        krate.body_of(channel_callsites@[e as int].0 as int) == Some(*body),
        exists|k: int|
            0 <= k < channel_callsites@[e as int].1@.len() && (#[trigger] channel_callsites@[e as int].1@[k]).api
                == ChannelApi::SyncChannel && channel_callsites@[e as int].1@[k].tuple_dest == Some(t),
        forall|x: int|
            0 <= x < old(reports)@.len() ==> is_channel_deadlock_report(*krate, channel_callsites@, #[trigger] old(reports)@[x]),
    ensures
        forall|x: int|
            0 <= x < final(reports)@.len() ==> is_channel_deadlock_report(*krate, channel_callsites@, #[trigger] final(reports)@[x]),
        ({
            let h = hits_upto(*krate, channel_callsites@, e as int, t, channel_callsites@[e as int].1@.len() as int);
            &&& final(reports)@.len() == old(reports)@.len() + h.len()
            &&& forall|x: int| 0 <= x < old(reports)@.len() ==> final(reports)@[x] == old(reports)@[x]
            &&& forall|x: int|
                0 <= x < h.len() ==> describes_deadlock(
                    *krate,
                    channel_callsites@,
                    e as int,
                    h[x].0,
                    h[x].1,
                    #[trigger] final(reports)@[old(reports)@.len() + x],
                )
        }),
{
    let ghost r0 = reports@;
    let fun_id = channel_callsites[e].0;
    let sites = &channel_callsites[e].1;
    let mut i: usize = 0;
    while i < sites.len()
        invariant
            channel_sites_valid(*krate, channel_callsites@),
            e < channel_callsites@.len(),
            fun_id == channel_callsites@[e as int].0,
            *sites == channel_callsites@[e as int].1,
            krate.body_of(fun_id as int) == Some(*body),
            exists|k: int|
                0 <= k < sites@.len() && (#[trigger] sites@[k]).api == ChannelApi::SyncChannel && sites@[k].tuple_dest
                    == Some(t),
            i <= sites@.len(),
            forall|x: int|
                0 <= x < reports@.len() ==> is_channel_deadlock_report(*krate, channel_callsites@, #[trigger] reports@[x]),
            reports@.len() == r0.len() + hits_upto(*krate, channel_callsites@, e as int, t, i as int).len(),
            forall|x: int| 0 <= x < r0.len() ==> reports@[x] == r0[x],
            forall|x: int|
                0 <= x < hits_upto(*krate, channel_callsites@, e as int, t, i as int).len() ==> describes_deadlock(
                    *krate,
                    channel_callsites@,
                    e as int,
                    hits_upto(*krate, channel_callsites@, e as int, t, i as int)[x].0,
                    hits_upto(*krate, channel_callsites@, e as int, t, i as int)[x].1,
                    #[trigger] reports@[r0.len() + x],
                ),
        decreases sites@.len() - i,
    {
        let send = sites[i];
        let ghost hu = hits_upto(*krate, channel_callsites@, e as int, t, i as int);
        let ghost rb = reports@;
        if send.api == ChannelApi::Send && send.tuple_base == Some(t) && send.ch_local.is_some() {
            let mut j: usize = 0;
            while j < sites.len()
                invariant
                    channel_sites_valid(*krate, channel_callsites@),
                    e < channel_callsites@.len(),
                    fun_id == channel_callsites@[e as int].0,
                    *sites == channel_callsites@[e as int].1,
                    krate.body_of(fun_id as int) == Some(*body),
                    exists|k: int|
                        0 <= k < sites@.len() && (#[trigger] sites@[k]).api == ChannelApi::SyncChannel
                            && sites@[k].tuple_dest == Some(t),
                    i < sites@.len(),
                    send == sites@[i as int],
                    send.api == ChannelApi::Send && send.tuple_base == Some(t) && send.ch_local is Some,
                    j <= sites@.len(),
                    forall|x: int|
                        0 <= x < reports@.len() ==> is_channel_deadlock_report(*krate, channel_callsites@, #[trigger] reports@[x]),
                    hu == hits_upto(*krate, channel_callsites@, e as int, t, i as int),
                    rb.len() == r0.len() + hu.len(),
                    forall|x: int| 0 <= x < rb.len() ==> reports@[x] == rb[x],
                    forall|x: int| 0 <= x < r0.len() ==> rb[x] == r0[x],
                    forall|x: int|
                        0 <= x < hu.len() ==> describes_deadlock(
                            *krate,
                            channel_callsites@,
                            e as int,
                            hu[x].0,
                            hu[x].1,
                            #[trigger] rb[r0.len() + x],
                        ),
                    reports@.len() == rb.len() + hits_in(*krate, channel_callsites@, e as int, t, i as int, j as int).len(),
                    forall|x: int|
                        0 <= x < hits_in(*krate, channel_callsites@, e as int, t, i as int, j as int).len() ==> describes_deadlock(
                            *krate,
                            channel_callsites@,
                            e as int,
                            hits_in(*krate, channel_callsites@, e as int, t, i as int, j as int)[x].0,
                            hits_in(*krate, channel_callsites@, e as int, t, i as int, j as int)[x].1,
                            #[trigger] reports@[rb.len() + x],
                        ),
                decreases sites@.len() - j,
            {
                let ghost hj = hits_in(*krate, channel_callsites@, e as int, t, i as int, j as int);
                let ghost rj = reports@;
                let recv = sites[j];
                if recv.api == ChannelApi::Recv && recv.tuple_base == Some(t) && recv.ch_local.is_some()
                    && is_reachable(send.loc, recv.loc, body) {
                    proof {
                        assert(channel_callsites@[e as int].1@[i as int].loc.block < body.body@.len());
                        assert(channel_callsites@[e as int].1@[j as int].loc.block < body.body@.len());
                    }
                    let fn_name = fun_name_or_empty(krate, fun_id);
                    let send_span = span_for_loc(body, send.loc);
                    let recv_span = span_for_loc(body, recv.loc);
                    let diagnosis = ChannelDeadlockDiagnosis {
                        fn_name,
                        channel_type: text("std::sync::mpsc::sync_channel"),
                        send_span: format_span(&send_span),
                        recv_span: format_span(&recv_span),
                        explanation: text("Blocking send on sync_channel is reachable before recv in the same thread"),
                    };
                    let rep = Report::ChannelDeadlock(
                        ReportContent::new(
                            text("ChannelDeadlock"),
                            text("Possibly"),
                            diagnosis,
                            text("Blocking send on sync_channel is reachable before recv in the same thread"),
                        ),
                    );
                    proof {
                        assert(deadlock_pair(*krate, channel_callsites@, e as int, i as int, j as int));
                        assert(describes_deadlock(*krate, channel_callsites@, e as int, i as int, j as int, rep));
                    }
                    reports.push(rep);
                    proof {
                        assert(pair_hit(*krate, channel_callsites@, e as int, t, i as int, j as int));
                        let hn = hits_in(*krate, channel_callsites@, e as int, t, i as int, j + 1);
                        assert(hn =~= hj.push((i as int, j as int)));
                        assert forall|x: int| 0 <= x < rb.len() implies reports@[x] == rb[x] by {
                            assert(reports@[x] == rj[x]);
                        }
                        assert forall|x: int| 0 <= x < hn.len() implies describes_deadlock(
                            *krate,
                            channel_callsites@,
                            e as int,
                            hn[x].0,
                            hn[x].1,
                            #[trigger] reports@[rb.len() + x],
                        ) by {
                            if x < hj.len() {
                                assert(reports@[rb.len() + x] == rj[rb.len() + x]);
                                assert(hn[x] == hj[x]);
                            }
                        }
                    }
                } else {
                    proof {
                        assert(!pair_hit(*krate, channel_callsites@, e as int, t, i as int, j as int));
                        assert(hits_in(*krate, channel_callsites@, e as int, t, i as int, j + 1) =~= hj);
                    }
                }
                j = j + 1;
            }
        } else {
            proof {
                lemma_no_hits(*krate, channel_callsites@, e as int, t, i as int, sites@.len() as int);
            }
        }
        proof {
            let hn = hits_upto(*krate, channel_callsites@, e as int, t, i + 1);
            let hi = hits_in(*krate, channel_callsites@, e as int, t, i as int, sites@.len() as int);
            assert(hn =~= hu + hi);
            assert forall|x: int| 0 <= x < r0.len() implies reports@[x] == r0[x] by {
                assert(reports@[x] == rb[x]);
            }
            assert forall|x: int| 0 <= x < hn.len() implies describes_deadlock(
                *krate,
                channel_callsites@,
                e as int,
                hn[x].0,
                hn[x].1,
                #[trigger] reports@[r0.len() + x],
            ) by {
                if x < hu.len() {
                    assert(reports@[r0.len() + x] == rb[r0.len() + x]);
                    assert(hn[x] == hu[x]);
                } else {
                    assert(hn[x] == hi[x - hu.len()]);
                    assert(r0.len() + x == rb.len() + (x - hu.len()));
                }
            }
        }
        i = i + 1;
    }
}

/// The pairs made by the `sync_channel` calls among the first `k` sites, each once, in order.
pub open spec fn sync_tuples(ss: Seq<ChannelCallSite>, k: int) -> Seq<LocalId>
    decreases k,
{
    if k <= 0 {
        Seq::empty()
    } else {
        let prev = sync_tuples(ss, k - 1);
        let c = ss[k - 1];
        if c.api == ChannelApi::SyncChannel && c.tuple_dest is Some && !prev.contains(c.tuple_dest->0) {
            prev.push(c.tuple_dest->0)
        } else {
            prev
        }
    }
}

/// The deadlocking sends and receives of entry `e` on the first `m` pairs of `ts`, pair by pair.
pub open spec fn entry_deadlocks(
    krate: TranslatedCrate,
    sites: Seq<(FunDeclId, Vec<ChannelCallSite>)>,
    e: int,
    ts: Seq<LocalId>,
    m: int,
) -> Seq<(int, int, int)>
    decreases m,
{
    if m <= 0 {
        Seq::empty()
    } else {
        entry_deadlocks(krate, sites, e, ts, m - 1) + hits_upto(krate, sites, e, ts[m - 1], sites[e].1@.len() as int).map(
            |x: int, p: (int, int)| (e, p.0, p.1),
        )
    }
}

/// The deadlocking sends and receives of the first `e` entries, in the order they are reported.
pub open spec fn channel_deadlocks_upto(krate: TranslatedCrate, sites: Seq<(FunDeclId, Vec<ChannelCallSite>)>, e: int) -> Seq<
    (int, int, int),
>
    decreases e,
{
    if e <= 0 {
        Seq::empty()
    } else {
        let ts = sync_tuples(sites[e - 1].1@, sites[e - 1].1@.len() as int);
        channel_deadlocks_upto(krate, sites, e - 1) + if krate.body_of(sites[e - 1].0 as int) is Some {
            entry_deadlocks(krate, sites, e - 1, ts, ts.len() as int)
        } else {
            Seq::empty()
        }
    }
}

/// Blocking sends on a rendezvous channel (`sync_channel`) from which control
/// reaches a receive on the same channel in the same function: for each pair
/// made by a `sync_channel` call, each send on it and each receive on it.
#[verifier::rlimit(50)]
pub fn detect_channel_deadlocks(krate: &TranslatedCrate, channel_callsites: &ChannelCallSites) -> (r: Vec<Report>)
    requires
        channel_sites_valid(*krate, channel_callsites@),
    ensures
        forall|x: int| 0 <= x < r@.len() ==> is_channel_deadlock_report(*krate, channel_callsites@, #[trigger] r@[x]),
        r@.len() == channel_deadlocks_upto(*krate, channel_callsites@, channel_callsites@.len() as int).len(),
        forall|x: int|
            0 <= x < r@.len() ==> {
                let p = channel_deadlocks_upto(*krate, channel_callsites@, channel_callsites@.len() as int)[x];
                describes_deadlock(*krate, channel_callsites@, p.0, p.1, p.2, #[trigger] r@[x])
            },
{
    let mut reports: Vec<Report> = Vec::new();
    let mut e: usize = 0;
    while e < channel_callsites.len()
        invariant
            channel_sites_valid(*krate, channel_callsites@),
            e <= channel_callsites@.len(),
            forall|x: int|
                0 <= x < reports@.len() ==> is_channel_deadlock_report(*krate, channel_callsites@, #[trigger] reports@[x]),
            reports@.len() == channel_deadlocks_upto(*krate, channel_callsites@, e as int).len(),
            forall|x: int|
                0 <= x < reports@.len() ==> {
                    let p = channel_deadlocks_upto(*krate, channel_callsites@, e as int)[x];
                    describes_deadlock(*krate, channel_callsites@, p.0, p.1, p.2, #[trigger] reports@[x])
                },
        decreases channel_callsites@.len() - e,
    {
        let fun_id = channel_callsites[e].0;
        let sites = &channel_callsites[e].1;
        let ghost before = channel_deadlocks_upto(*krate, channel_callsites@, e as int);
        let ghost ts_all = sync_tuples(sites@, sites@.len() as int);
        proof {
            if krate.body_of(fun_id as int) is None {
                assert(channel_deadlocks_upto(*krate, channel_callsites@, e + 1) =~= before);
            }
        }
        if fun_id >= krate.fun_decls.len() {
            e = e + 1;
            continue;
        }
        let body = match &krate.fun_decls[fun_id] {
            Some(d) => match &d.body {
                Some(b) => b,
                None => {
                    e = e + 1;
                    continue;
                },
            },
            None => {
                e = e + 1;
                continue;
            },
        };
        // The pairs made by `sync_channel`, each once, in order.
        let mut tuples: Vec<LocalId> = Vec::new();
        let mut k: usize = 0;
        while k < sites.len()
            invariant
                k <= sites@.len(),
                forall|x: int| 0 <= x < tuples@.len() ==> is_sync_pair(sites@, #[trigger] tuples@[x]),
                tuples@ == sync_tuples(sites@, k as int),
            decreases sites@.len() - k,
        {
            let s = sites[k];
            if s.api == ChannelApi::SyncChannel {
                match s.tuple_dest {
                    Some(t) => {
                        if !crate::seqs::vec_contains(&tuples, t) {
                            tuples.push(t);
                            proof {
                                assert(sites@[k as int].tuple_dest == Some(t));
                                assert(is_sync_pair(sites@, t));
                            }
                        }
                    },
                    None => {},
                }
            }
            k = k + 1;
        }
        let mut ti: usize = 0;
        while ti < tuples.len()
            invariant
                channel_sites_valid(*krate, channel_callsites@),
                e < channel_callsites@.len(),
                fun_id == channel_callsites@[e as int].0,
                *sites == channel_callsites@[e as int].1,
                krate.body_of(fun_id as int) == Some(*body),
                forall|x: int| 0 <= x < tuples@.len() ==> is_sync_pair(sites@, #[trigger] tuples@[x]),
                ti <= tuples@.len(),
                forall|x: int|
                    0 <= x < reports@.len() ==> is_channel_deadlock_report(*krate, channel_callsites@, #[trigger] reports@[x]),
                tuples@ == ts_all,
                before == channel_deadlocks_upto(*krate, channel_callsites@, e as int),
                reports@.len() == before.len() + entry_deadlocks(*krate, channel_callsites@, e as int, ts_all, ti as int).len(),
                forall|x: int|
                    0 <= x < reports@.len() ==> {
                        let p = (before + entry_deadlocks(*krate, channel_callsites@, e as int, ts_all, ti as int))[x];
                        describes_deadlock(*krate, channel_callsites@, p.0, p.1, p.2, #[trigger] reports@[x])
                    },
            decreases tuples@.len() - ti,
        {
            let t = tuples[ti];
            proof {
                assert(is_sync_pair(sites@, tuples@[ti as int]));
            }
            let ghost rb = reports@;
            let ghost cur = before + entry_deadlocks(*krate, channel_callsites@, e as int, ts_all, ti as int);
            deadlocks_for_pair(krate, channel_callsites, e, body, t, &mut reports);
            proof {
                let h = hits_upto(*krate, channel_callsites@, e as int, t, sites@.len() as int);
                let hm = h.map(|x: int, p: (int, int)| (e as int, p.0, p.1));
                let nxt = before + entry_deadlocks(*krate, channel_callsites@, e as int, ts_all, ti + 1);
                assert(nxt =~= cur + hm);
                assert forall|x: int| 0 <= x < reports@.len() implies {
                    let p = nxt[x];
                    describes_deadlock(*krate, channel_callsites@, p.0, p.1, p.2, #[trigger] reports@[x])
                } by {
                    if x < rb.len() {
                        assert(reports@[x] == rb[x]);
                        assert(nxt[x] == cur[x]);
                    } else {
                        let y = x - rb.len();
                        assert(nxt[x] == hm[y]);
                        assert(reports@[rb.len() + y] == reports@[x]);
                    }
                }
            }
            ti = ti + 1;
        }
        proof {
            assert(channel_deadlocks_upto(*krate, channel_callsites@, e + 1)
                =~= before + entry_deadlocks(*krate, channel_callsites@, e as int, ts_all, ts_all.len() as int));
        }
        e = e + 1;
    }
    reports
}


// ---------------------------------------------------------------------------
// Endpoints
// ---------------------------------------------------------------------------

pub open spec fn sender_of(c: int) -> EndpointId {
    EndpointId { channel: ChannelId(c as usize), kind: EndpointKind::Sender }
}

pub open spec fn receiver_of(c: int) -> EndpointId {
    EndpointId { channel: ChannelId(c as usize), kind: EndpointKind::Receiver }
}

/// A constructor whose pair is kept in a local.
pub open spec fn is_ctor(s: ChannelCallSite) -> bool {
    (s.api == ChannelApi::Channel || s.api == ChannelApi::SyncChannel) && s.tuple_dest is Some
}

/// The constructors of one function's calls, with the function, in order.
pub open spec fn ctor_locs_of(f: FunDeclId, ss: Seq<ChannelCallSite>) -> Seq<(FunDeclId, Location)>
    decreases ss.len(),
{
    if ss.len() == 0 {
        Seq::empty()
    } else if is_ctor(ss.last()) {
        ctor_locs_of(f, ss.drop_last()).push((f, ss.last().loc))
    } else {
        ctor_locs_of(f, ss.drop_last())
    }
}

/// The constructors of all the calls, entry by entry: channel `c` is the
/// `c`-th of them.
pub open spec fn ctor_locs(sites: Seq<(FunDeclId, Vec<ChannelCallSite>)>) -> Seq<(FunDeclId, Location)>
    decreases sites.len(),
{
    if sites.len() == 0 {
        Seq::empty()
    } else {
        ctor_locs(sites.drop_last()) + ctor_locs_of(sites.last().0, sites.last().1@)
    }
}

/// The pair locals of the constructors of one function's calls, each with
/// its channel, the channels counted from `base`.
pub open spec fn ctor_pairs_of(f: FunDeclId, ss: Seq<ChannelCallSite>, base: int) -> Seq<((FunDeclId, LocalId), usize)>
    decreases ss.len(),
{
    if ss.len() == 0 {
        Seq::empty()
    } else {
        let rest = ctor_pairs_of(f, ss.drop_last(), base);
        if is_ctor(ss.last()) {
            rest.push(((f, ss.last().tuple_dest->0), (base + ctor_locs_of(f, ss.drop_last()).len()) as usize))
        } else {
            rest
        }
    }
}

/// The pair locals of the constructors of all the calls, each with its channel.
pub open spec fn ctor_pairs(sites: Seq<(FunDeclId, Vec<ChannelCallSite>)>) -> Seq<((FunDeclId, LocalId), usize)>
    decreases sites.len(),
{
    if sites.len() == 0 {
        Seq::empty()
    } else {
        ctor_pairs(sites.drop_last()) + ctor_pairs_of(sites.last().0, sites.last().1@, ctor_locs(sites.drop_last()).len() as int)
    }
}

/// The endpoint of channel `cid` that field `field` of its pair holds.
pub open spec fn endpoint_of(cid: usize, field: usize) -> EndpointId {
    if field == 0 {
        EndpointId { channel: ChannelId(cid), kind: EndpointKind::Sender }
    } else {
        EndpointId { channel: ChannelId(cid), kind: EndpointKind::Receiver }
    }
}

/// The endpoint locals of one function's sends and receives: each local taken
/// from a field of a constructor's pair, with the endpoint it holds.
pub open spec fn locals_of(f: FunDeclId, ss: Seq<ChannelCallSite>, pairs: Seq<((FunDeclId, LocalId), usize)>) -> Seq<
    ((FunDeclId, LocalId), EndpointId),
>
    decreases ss.len(),
{
    if ss.len() == 0 {
        Seq::empty()
    } else {
        let rest = locals_of(f, ss.drop_last(), pairs);
        let s = ss.last();
        match (s.ch_local, s.tuple_base, s.tuple_field_index) {
            (Some(cl), Some(tb), Some(fi)) => match last_pair_entry(pairs, f, tb) {
                Some(cid) => rest.push(((f, cl), endpoint_of(cid, fi))),
                None => rest,
            },
            _ => rest,
        }
    }
}

/// The endpoint locals of all the calls, entry by entry, each entry's sends
/// and receives read against the constructors up to and including it.
pub open spec fn endpoint_locals(sites: Seq<(FunDeclId, Vec<ChannelCallSite>)>) -> Seq<((FunDeclId, LocalId), EndpointId)>
    decreases sites.len(),
{
    if sites.len() == 0 {
        Seq::empty()
    } else {
        endpoint_locals(sites.drop_last()) + locals_of(sites.last().0, sites.last().1@, ctor_pairs(sites))
    }
}

/// The sends and receives of one function's calls on an endpoint taken from
/// a field of a constructor's pair: the endpoint and the call's location.
pub open spec fn sync_events_of(f: FunDeclId, ss: Seq<ChannelCallSite>, pairs: Seq<((FunDeclId, LocalId), usize)>) -> Seq<
    (EndpointId, (FunDeclId, Location)),
>
    decreases ss.len(),
{
    if ss.len() == 0 {
        Seq::empty()
    } else {
        let rest = sync_events_of(f, ss.drop_last(), pairs);
        let s = ss.last();
        match (s.ch_local, s.tuple_base, s.tuple_field_index) {
            (Some(cl), Some(tb), Some(fi)) => match last_pair_entry(pairs, f, tb) {
                Some(cid) => rest.push((endpoint_of(cid, fi), (f, s.loc))),
                None => rest,
            },
            _ => rest,
        }
    }
}

/// The sends and receives of all the calls on endpoints, entry by entry.
pub open spec fn endpoint_syncs(sites: Seq<(FunDeclId, Vec<ChannelCallSite>)>) -> Seq<(EndpointId, (FunDeclId, Location))>
    decreases sites.len(),
{
    if sites.len() == 0 {
        Seq::empty()
    } else {
        endpoint_syncs(sites.drop_last()) + sync_events_of(sites.last().0, sites.last().1@, ctor_pairs(sites))
    }
}

/// The locations of the events on endpoint `ep`, in order.
pub open spec fn locs_for(evs: Seq<(EndpointId, (FunDeclId, Location))>, ep: EndpointId) -> Seq<(FunDeclId, Location)>
    decreases evs.len(),
{
    if evs.len() == 0 {
        Seq::empty()
    } else {
        locs_for(evs.drop_last(), ep) + if evs.last().0 == ep {
            seq![evs.last().1]
        } else {
            Seq::empty()
        }
    }
}

/// The endpoint kept at position `k` of the per-endpoint lists: the sender
/// of channel `k / 2` at even positions, its receiver at odd ones.
pub open spec fn endpoint_at(k: int) -> EndpointId {
    if k % 2 == 0 {
        sender_of(k / 2)
    } else {
        receiver_of(k / 2)
    }
}

/// No event is on an endpoint of a channel from `n` on, so those have no locations.
proof fn lemma_locs_for_new(evs: Seq<(EndpointId, (FunDeclId, Location))>, n: int, k: int)
    requires
        forall|i: int| 0 <= i < evs.len() ==> ((#[trigger] evs[i]).0.channel.0 as int) < n,
        k / 2 >= n,
        k / 2 <= usize::MAX,
        n >= 0,
        k >= 0,
    ensures
        locs_for(evs, endpoint_at(k)).len() == 0,
    decreases evs.len(),
{
    if evs.len() > 0 {
        let d = evs.drop_last();
        assert forall|i: int| 0 <= i < d.len() implies ((#[trigger] d[i]).0.channel.0 as int) < n by {
            assert(d[i] == evs[i]);
        }
        lemma_locs_for_new(d, n, k);
        assert(evs[evs.len() - 1] == evs.last());
        assert(endpoint_at(k).channel.0 == (k / 2) as usize);
        assert(((k / 2) as usize) as int == k / 2);
        assert(evs.last().0 != endpoint_at(k));
    }
}

/// Block `b` of function `f` spawns a thread with a closure whose local holds
/// the sender of channel `c`, by the endpoint locals `l2e`.
pub open spec fn spawn_moves(krate: TranslatedCrate, l2e: Seq<((FunDeclId, LocalId), EndpointId)>, f: int, b: int, c: int) -> bool {
    match krate.body_of(f) {
        Some(body) => 0 <= b < body.body@.len() && match body.body@[b].terminator.kind {
            TerminatorKind::Call { call, .. } => is_spawn_call(call.func, krate) && call.args@.len() > 0 && match operand_place(
                call.args@[0],
            ) {
                Some(p) => match base_local(p) {
                    Some(cl) => last_pair_entry(l2e, f as usize, cl) == Some(sender_of(c)),
                    None => false,
                },
                None => false,
            },
            _ => false,
        },
        None => false,
    }
}

/// Some thread spawn moves the sender of channel `c`.
pub open spec fn spawn_moves_sender(krate: TranslatedCrate, l2e: Seq<((FunDeclId, LocalId), EndpointId)>, c: int) -> bool {
    exists|f: int, b: int| #[trigger] spawn_moves(krate, l2e, f, b, c)
}

/// The value recorded last for the key `(f, l)`.
pub open spec fn last_pair_entry<V>(m: Seq<((FunDeclId, LocalId), V)>, f: FunDeclId, l: LocalId) -> Option<V>
    decreases m.len(),
{
    if m.len() == 0 {
        None
    } else if m.last().0 == (f, l) {
        Some(m.last().1)
    } else {
        last_pair_entry(m.drop_last(), f, l)
    }
}

fn lookup_pair_last<V: Copy>(m: &Vec<((FunDeclId, LocalId), V)>, f: FunDeclId, l: LocalId) -> (r: Option<V>)
    ensures
        r == last_pair_entry(m@, f, l),
{
    let mut i: usize = m.len();
    assert(m@.take(i as int) =~= m@);
    while i > 0
        invariant
            i <= m@.len(),
            last_pair_entry(m@, f, l) == last_pair_entry(m@.take(i as int), f, l),
        decreases i,
    {
        assert(m@.take(i as int).drop_last() =~= m@.take(i - 1));
        if (m[i - 1].0).0 == f && (m[i - 1].0).1 == l {
            return Some(m[i - 1].1);
        }
        i = i - 1;
    }
    None
}

/// The channel table and the endpoint lifetimes agree: channel `c` has the
/// sender and receiver numbered `c`, whose lifetimes stand at `2c` and
/// `2c + 1`, both made at the `c`-th constructor; only senders are marked as
/// moved to a thread, and no endpoint is marked as escaping or dropped.
pub open spec fn endpoint_tables_wf(
    ctors: Seq<(FunDeclId, Location)>,
    local_to_endpoint: Seq<((FunDeclId, LocalId), EndpointId)>,
    channels: Seq<(ChannelId, (EndpointId, EndpointId))>,
    lifetimes: Seq<(EndpointId, EndpointLifetime)>,
) -> bool {
    &&& channels.len() == ctors.len()
    &&& lifetimes.len() == 2 * channels.len()
    &&& forall|c: int|
        0 <= c < channels.len() ==> #[trigger] channels[c] == (ChannelId(c as usize), (sender_of(c), receiver_of(c)))
    &&& forall|c: int|
        0 <= c < channels.len() ==> {
            &&& (#[trigger] lifetimes[2 * c]).0 == sender_of(c)
            &&& lifetimes[2 * c + 1].0 == receiver_of(c)
            &&& lifetimes[2 * c].1.creation_loc == ctors[c]
            &&& lifetimes[2 * c + 1].1.creation_loc == ctors[c]
            &&& !lifetimes[2 * c + 1].1.moved_to_thread
        }
    &&& forall|k: int|
        0 <= k < lifetimes.len() ==> !(#[trigger] lifetimes[k]).1.escapes && lifetimes[k].1.drop_locs@.len() == 0
    &&& forall|k: int|
        0 <= k < local_to_endpoint.len() ==> (#[trigger] local_to_endpoint[k]).1.channel.0 < channels.len()
}

/// A call of a function whose path holds `thread::spawn`.
pub open spec fn is_spawn_call(func: FnOperand, krate: TranslatedCrate) -> bool {
    match callee_name(func, krate) {
        Some(n) => has_sub(n, "thread::spawn"@),
        None => false,
    }
}

fn spawn_call(func: &FnOperand, krate: &TranslatedCrate) -> (r: bool)
    ensures
        r == is_spawn_call(*func, *krate),
{
    match callee_name_of(func, krate) {
        Some(n) => {
            let chars = chars_of(n.as_str());
            vec_has(&chars, "thread::spawn")
        },
        None => false,
    }
}

/// Appends `x` to the list at index `i`.
fn push_at(lists: &mut Vec<Vec<(FunDeclId, Location)>>, i: usize, x: (FunDeclId, Location))
    requires
        i < old(lists)@.len(),
    ensures
        final(lists)@.len() == old(lists)@.len(),
        forall|k: int| 0 <= k < old(lists)@.len() && k != i ==> final(lists)@[k] == old(lists)@[k],
        final(lists)@[i as int]@ == old(lists)@[i as int]@.push(x),
{
    let mut slot: Vec<(FunDeclId, Location)> = Vec::new();
    lists.set_and_swap(i, &mut slot);
    slot.push(x);
    lists.set_and_swap(i, &mut slot);
}

/// Numbers the channels in the order of their constructors, maps the
/// endpoint locals of sends and receives to endpoints, records where each
/// endpoint is used, and marks the senders moved into a spawned thread.
pub fn build_endpoint_map(krate: &TranslatedCrate, callsites: &ChannelCallSites) -> (r: (
    Vec<((FunDeclId, LocalId), EndpointId)>,
    Vec<(ChannelId, (EndpointId, EndpointId))>,
    Vec<(EndpointId, EndpointLifetime)>,
))
    ensures
        endpoint_tables_wf(ctor_locs(callsites@), r.0@, r.1@, r.2@),
        r.0@ == endpoint_locals(callsites@),
        forall|c: int| 0 <= c < r.1@.len() ==> (#[trigger] r.2@[2 * c]).1.moved_to_thread == spawn_moves_sender(*krate, r.0@, c),
        forall|c: int| 0 <= c < r.1@.len() ==> (#[trigger] r.2@[2 * c]).1.sync_locs@ == locs_for(endpoint_syncs(callsites@), sender_of(c)),
        forall|c: int|
            0 <= c < r.1@.len() ==> (#[trigger] r.2@[2 * c + 1]).1.sync_locs@ == locs_for(endpoint_syncs(callsites@), receiver_of(c)),
{
    let mut channels: Vec<(ChannelId, (EndpointId, EndpointId))> = Vec::new();
    let mut creation: Vec<(FunDeclId, Location)> = Vec::new();
    let mut tuple_to_channel: Vec<((FunDeclId, LocalId), usize)> = Vec::new();
    let mut local_to_endpoint: Vec<((FunDeclId, LocalId), EndpointId)> = Vec::new();
    let mut syncs: Vec<Vec<(FunDeclId, Location)>> = Vec::new();
    let mut moved: Vec<bool> = Vec::new();
    let mut e: usize = 0;
    while e < callsites.len()
        invariant
            e <= callsites@.len(),
            creation@ == ctor_locs(callsites@.take(e as int)),
            tuple_to_channel@ == ctor_pairs(callsites@.take(e as int)),
            local_to_endpoint@ == endpoint_locals(callsites@.take(e as int)),
            forall|k: int| 0 <= k < syncs@.len() ==> (#[trigger] syncs@[k])@ == locs_for(endpoint_syncs(callsites@.take(e as int)), endpoint_at(k)),
            forall|i: int|
                0 <= i < endpoint_syncs(callsites@.take(e as int)).len() ==> ((#[trigger] endpoint_syncs(callsites@.take(e as int))[i]).0.channel.0 as int)
                    < channels@.len(),
            channels@.len() == creation@.len(),
            syncs@.len() == 2 * channels@.len(),
            moved@.len() == 2 * channels@.len(),
            forall|k: int| 0 <= k < moved@.len() ==> !#[trigger] moved@[k],
            forall|c: int|
                0 <= c < channels@.len() ==> #[trigger] channels@[c] == (
                    ChannelId(c as usize),
                    (sender_of(c), receiver_of(c)),
                ),
            forall|k: int| 0 <= k < tuple_to_channel@.len() ==> (#[trigger] tuple_to_channel@[k]).1 < channels@.len(),
            forall|k: int|
                0 <= k < local_to_endpoint@.len() ==> (#[trigger] local_to_endpoint@[k]).1.channel.0 < channels@.len(),
        decreases callsites@.len() - e,
    {
        let fun_id = callsites[e].0;
        let sites = &callsites[e].1;
        let ghost start = creation@;
        let ghost tstart = tuple_to_channel@;
        let ghost lstart = local_to_endpoint@;
        let ghost evs0 = endpoint_syncs(callsites@.take(e as int));
        // Constructors.
        let mut i: usize = 0;
        while i < sites.len()
            invariant
                i <= sites@.len(),
                creation@ == start + ctor_locs_of(fun_id, sites@.take(i as int)),
                tuple_to_channel@ == tstart + ctor_pairs_of(fun_id, sites@.take(i as int), start.len() as int),
                local_to_endpoint@ == lstart,
                forall|k: int| 0 <= k < syncs@.len() ==> (#[trigger] syncs@[k])@ == locs_for(evs0, endpoint_at(k)),
                forall|j: int| 0 <= j < evs0.len() ==> ((#[trigger] evs0[j]).0.channel.0 as int) < channels@.len(),
                forall|k: int| 0 <= k < tuple_to_channel@.len() ==> (#[trigger] tuple_to_channel@[k]).1 < channels@.len(),
                channels@.len() == creation@.len(),
                syncs@.len() == 2 * channels@.len(),
                moved@.len() == 2 * channels@.len(),
                forall|k: int| 0 <= k < moved@.len() ==> !#[trigger] moved@[k],
                forall|c: int|
                    0 <= c < channels@.len() ==> #[trigger] channels@[c] == (
                        ChannelId(c as usize),
                        (sender_of(c), receiver_of(c)),
                    ),
                forall|k: int| 0 <= k < tuple_to_channel@.len() ==> (#[trigger] tuple_to_channel@[k]).1 < channels@.len(),
                forall|k: int|
                    0 <= k < local_to_endpoint@.len() ==> (#[trigger] local_to_endpoint@[k]).1.channel.0 < channels@.len(),
            decreases sites@.len() - i,
        {
            let site = sites[i];
            proof {
                assert(sites@.take(i + 1).drop_last() =~= sites@.take(i as int));
                assert(sites@.take(i + 1).last() == site);
            }
            if site.api == ChannelApi::Channel || site.api == ChannelApi::SyncChannel {
                match site.tuple_dest {
                    Some(tuple_local) => {
                        let cid = channels.len();
                        let sender = EndpointId { channel: ChannelId(cid), kind: EndpointKind::Sender };
                        let receiver = EndpointId { channel: ChannelId(cid), kind: EndpointKind::Receiver };
                        channels.push((ChannelId(cid), (sender, receiver)));
                        creation.push((fun_id, site.loc));
                        tuple_to_channel.push(((fun_id, tuple_local), cid));
                        let ghost sb = syncs@;
                        syncs.push(Vec::new());
                        syncs.push(Vec::new());
                        proof {
                            assert forall|k: int| 0 <= k < syncs@.len() implies (#[trigger] syncs@[k])@ == locs_for(evs0, endpoint_at(k)) by {
                                if k < sb.len() {
                                    assert(syncs@[k] == sb[k]);
                                } else {
                                    lemma_locs_for_new(evs0, cid as int, k);
                                }
                            }
                        }
                        moved.push(false);
                        moved.push(false);
                    },
                    None => {},
                }
            }
            assert(creation@ =~= start + ctor_locs_of(fun_id, sites@.take(i + 1)));
            assert(tuple_to_channel@ =~= tstart + ctor_pairs_of(fun_id, sites@.take(i + 1), start.len() as int));
            i = i + 1;
        }
        assert(sites@.take(sites@.len() as int) =~= sites@);
        proof {
            let tk = callsites@.take(e + 1);
            assert(tk.drop_last() =~= callsites@.take(e as int));
            assert(tk.last() == callsites@[e as int]);
            assert(tuple_to_channel@ == ctor_pairs(tk));
        }
        let ghost pairs = tuple_to_channel@;
        assert(local_to_endpoint@ =~= lstart + locals_of(fun_id, sites@.take(0), pairs));
        assert(evs0 + sync_events_of(fun_id, sites@.take(0), pairs) =~= evs0);
        // Sends and receives.
        let mut i: usize = 0;
        while i < sites.len()
            invariant
                i <= sites@.len(),
                tuple_to_channel@ == pairs,
                local_to_endpoint@ == lstart + locals_of(fun_id, sites@.take(i as int), pairs),
                forall|k: int|
                    0 <= k < syncs@.len() ==> (#[trigger] syncs@[k])@ == locs_for(evs0 + sync_events_of(fun_id, sites@.take(i as int), pairs), endpoint_at(k)),
                forall|j: int|
                    0 <= j < (evs0 + sync_events_of(fun_id, sites@.take(i as int), pairs)).len() ==> ((#[trigger] (evs0 + sync_events_of(fun_id, sites@.take(i as int), pairs))[j]).0.channel.0 as int)
                        < channels@.len(),
                *sites == callsites@[e as int].1,
                fun_id == callsites@[e as int].0,
                channels@.len() == creation@.len(),
                syncs@.len() == 2 * channels@.len(),
                moved@.len() == 2 * channels@.len(),
                forall|k: int| 0 <= k < moved@.len() ==> !#[trigger] moved@[k],
                forall|k: int| 0 <= k < tuple_to_channel@.len() ==> (#[trigger] tuple_to_channel@[k]).1 < channels@.len(),
                forall|k: int|
                    0 <= k < local_to_endpoint@.len() ==> (#[trigger] local_to_endpoint@[k]).1.channel.0 < channels@.len(),
            decreases sites@.len() - i,
        {
            let site = sites[i];
            proof {
                assert(sites@.take(i + 1).drop_last() =~= sites@.take(i as int));
                assert(sites@.take(i + 1).last() == site);
            }
            match (site.ch_local, site.tuple_base, site.tuple_field_index) {
                (Some(ch_local), Some(tuple_base), Some(field_idx)) => {
                    match lookup_pair_last(&tuple_to_channel, fun_id, tuple_base) {
                        Some(cid) => {
                            proof {
                                lemma_last_pair_in(tuple_to_channel@, fun_id, tuple_base);
                            }
                            let endpoint = if field_idx == 0 {
                                EndpointId { channel: ChannelId(cid), kind: EndpointKind::Sender }
                            } else {
                                EndpointId { channel: ChannelId(cid), kind: EndpointKind::Receiver }
                            };
                            local_to_endpoint.push(((fun_id, ch_local), endpoint));
                            assert(local_to_endpoint@ =~= lstart + locals_of(fun_id, sites@.take(i + 1), pairs));
                            let ns: usize = syncs.len();
                            assert(2 * cid + 1 < ns);
                            let idx: usize = if field_idx == 0 {
                                2 * cid
                            } else {
                                2 * cid + 1
                            };
                            let ghost sb = syncs@;
                            let ghost ev_a = evs0 + sync_events_of(fun_id, sites@.take(i as int), pairs);
                            let ghost ev_b = evs0 + sync_events_of(fun_id, sites@.take(i + 1), pairs);
                            push_at(&mut syncs, idx, (fun_id, site.loc));
                            proof {
                                assert(ev_b =~= ev_a.push((endpoint, (fun_id, site.loc))));
                                assert(endpoint == endpoint_at(idx as int));
                                assert forall|k: int| 0 <= k < syncs@.len() implies (#[trigger] syncs@[k])@ == locs_for(ev_b, endpoint_at(k)) by {
                                    assert(ev_b.drop_last() =~= ev_a);
                                    if k != idx {
                                        assert(syncs@[k] == sb[k]);
                                        assert(endpoint_at(k) != endpoint_at(idx as int));
                                    }
                                }
                                assert forall|j: int| 0 <= j < ev_b.len() implies ((#[trigger] ev_b[j]).0.channel.0 as int) < channels@.len() by {
                                    if j < ev_a.len() {
                                        assert(ev_b[j] == ev_a[j]);
                                    }
                                }
                            }
                        },
                        None => {
                            assert(local_to_endpoint@ =~= lstart + locals_of(fun_id, sites@.take(i + 1), pairs));
                            assert(sync_events_of(fun_id, sites@.take(i + 1), pairs) =~= sync_events_of(fun_id, sites@.take(i as int), pairs));
                        },
                    }
                },
                _ => {
                    assert(local_to_endpoint@ =~= lstart + locals_of(fun_id, sites@.take(i + 1), pairs));
                    assert(sync_events_of(fun_id, sites@.take(i + 1), pairs) =~= sync_events_of(fun_id, sites@.take(i as int), pairs));
                },
            }
            i = i + 1;
        }
        proof {
            assert(callsites@.take(e + 1).drop_last() =~= callsites@.take(e as int));
            assert(callsites@.take(e + 1).last() == callsites@[e as int]);
            assert(sites@.take(sites@.len() as int) =~= sites@);
            assert(local_to_endpoint@ == endpoint_locals(callsites@.take(e + 1)));
            assert(endpoint_syncs(callsites@.take(e + 1)) == evs0 + sync_events_of(fun_id, sites@, pairs));
        }
        e = e + 1;
    }
    assert(callsites@.take(callsites@.len() as int) =~= callsites@);
    // Senders moved into a spawned thread.
    let ghost l2e = local_to_endpoint@;
    proof {
        assert forall|c: int| 0 <= c < channels@.len() implies (#[trigger] moved@[2 * c] <==> exists|f0: int, b0: int|
            f0 < 0 && #[trigger] spawn_moves(*krate, l2e, f0, b0, c)) by {
            assert(!moved@[2 * c]);
        }
    }
    let mut f: usize = 0;
    while f < krate.fun_decls.len()
        invariant
            f <= krate.fun_decls@.len(),
            local_to_endpoint@ == l2e,
            channels@.len() == creation@.len(),
            syncs@.len() == 2 * channels@.len(),
            moved@.len() == 2 * channels@.len(),
            forall|c: int| 0 <= c < channels@.len() ==> !#[trigger] moved@[2 * c + 1],
            forall|c: int|
                0 <= c < channels@.len() ==> (#[trigger] moved@[2 * c] <==> exists|f0: int, b0: int|
                    f0 < f && #[trigger] spawn_moves(*krate, l2e, f0, b0, c)),
            forall|k: int|
                0 <= k < local_to_endpoint@.len() ==> (#[trigger] local_to_endpoint@[k]).1.channel.0 < channels@.len(),
        decreases krate.fun_decls@.len() - f,
    {
        let body = match &krate.fun_decls[f] {
            Some(d) => match &d.body {
                Some(b) => b,
                None => {
                    proof {
                        lemma_no_spawn_moves(*krate, l2e, f as int, channels@.len() as int, moved@);
                    }
                    f = f + 1;
                    continue;
                },
            },
            None => {
                proof {
                    lemma_no_spawn_moves(*krate, l2e, f as int, channels@.len() as int, moved@);
                }
                f = f + 1;
                continue;
            },
        };
        assert(krate.body_of(f as int) == Some(*body));
        let mut b: usize = 0;
        while b < body.body.len()
            invariant
                b <= body.body@.len(),
                f < krate.fun_decls@.len(),
                krate.body_of(f as int) == Some(*body),
                local_to_endpoint@ == l2e,
                channels@.len() == creation@.len(),
                syncs@.len() == 2 * channels@.len(),
                moved@.len() == 2 * channels@.len(),
                forall|c: int| 0 <= c < channels@.len() ==> !#[trigger] moved@[2 * c + 1],
                forall|c: int|
                    0 <= c < channels@.len() ==> (#[trigger] moved@[2 * c] <==> exists|f0: int, b0: int|
                        (f0 < f || (f0 == f && b0 < b)) && #[trigger] spawn_moves(*krate, l2e, f0, b0, c)),
                forall|k: int|
                    0 <= k < local_to_endpoint@.len() ==> (#[trigger] local_to_endpoint@[k]).1.channel.0
                        < channels@.len(),
            decreases body.body@.len() - b,
        {
            let ghost mb = moved@;
            let ghost mut mc: Option<int> = None;
            match &body.body[b].terminator.kind {
                TerminatorKind::Call { call, .. } => {
                    if spawn_call(&call.func, krate) && call.args.len() > 0 {
                        let closure_local: Option<LocalId> = match &call.args[0] {
                            Operand::Move(p) | Operand::Copy(p) => p.local_id(),
                            Operand::Const(_) => None,
                        };
                        match closure_local {
                            Some(cl) => match lookup_pair_last(&local_to_endpoint, f, cl) {
                                Some(endpoint) => {
                                    proof {
                                        lemma_last_pair_in(local_to_endpoint@, f, cl);
                                    }
                                    if endpoint.kind == EndpointKind::Sender {
                                        let c = endpoint.channel.0;
                                        let nm: usize = moved.len();
                                        assert(2 * c < nm);
                                        moved.set(2 * c, true);
                                        proof {
                                            mc = Some(c as int);
                                            assert(endpoint == sender_of(c as int));
                                            assert forall|x: int| 0 <= x < channels@.len() implies !#[trigger] moved@[2 * x + 1] by {
                                                assert(2 * x + 1 != 2 * c);
                                            }
                                        }
                                    }
                                },
                                None => {},
                            },
                            None => {},
                        }
                    }
                },
                _ => {},
            }
            proof {
                assert forall|c: int| 0 <= c < channels@.len() implies (#[trigger] spawn_moves(*krate, l2e, f as int, b as int, c)
                    <==> mc == Some(c)) by {
                    if spawn_moves(*krate, l2e, f as int, b as int, c) {
                        assert(mc is Some);
                    }
                }
                assert forall|c: int| 0 <= c < channels@.len() implies moved@[2 * c] == (mb[2 * c] || mc == Some(c)) by {
                    if mc is Some && mc != Some(c) {
                        assert(2 * c != 2 * mc->0);
                    }
                }
                lemma_block_moves(*krate, l2e, f as int, b as int, channels@.len() as int, mb, moved@, mc);
            }
            b = b + 1;
        }
        proof {
            lemma_body_moves_done(*krate, l2e, f as int, body.body@.len() as int, channels@.len() as int, moved@);
        }
        f = f + 1;
    }
    let ghost sf = syncs@;
    let ghost evs = endpoint_syncs(callsites@);
    proof {
        assert forall|x: int| 0 <= x < channels@.len() implies (#[trigger] moved@[2 * x] <==> spawn_moves_sender(*krate, local_to_endpoint@, x)) by {
            if spawn_moves_sender(*krate, l2e, x) {
                let (f0, b0) = choose|f0: int, b0: int| #[trigger] spawn_moves(*krate, l2e, f0, b0, x);
                assert(krate.body_of(f0) is Some);
                assert(f0 < krate.fun_decls@.len());
            }
        }
    }
    // The lifetimes, sender then receiver of each channel.
    let mut lifetimes: Vec<(EndpointId, EndpointLifetime)> = Vec::new();
    let mut c: usize = 0;
    while c < channels.len()
        invariant
            c <= channels@.len(),
            channels@.len() == creation@.len(),
            syncs@.len() == 2 * channels@.len(),
            moved@.len() == 2 * channels@.len(),
            forall|x: int| 0 <= x < channels@.len() ==> !#[trigger] moved@[2 * x + 1],
            forall|x: int| 0 <= x < channels@.len() ==> (#[trigger] moved@[2 * x] <==> spawn_moves_sender(*krate, local_to_endpoint@, x)),
            forall|x: int| 0 <= x < c ==> (#[trigger] lifetimes@[2 * x]).1.moved_to_thread == moved@[2 * x],
            sf.len() == syncs@.len(),
            forall|k: int| 2 * c <= k < syncs@.len() ==> #[trigger] syncs@[k] == sf[k],
            forall|k: int| 0 <= k < sf.len() ==> (#[trigger] sf[k])@ == locs_for(evs, endpoint_at(k)),
            forall|x: int| 0 <= x < c ==> (#[trigger] lifetimes@[2 * x]).1.sync_locs@ == sf[2 * x]@,
            forall|x: int| 0 <= x < c ==> (#[trigger] lifetimes@[2 * x + 1]).1.sync_locs@ == sf[2 * x + 1]@,
            lifetimes@.len() == 2 * c,
            forall|x: int|
                0 <= x < c ==> {
                    &&& (#[trigger] lifetimes@[2 * x]).0 == sender_of(x)
                    &&& lifetimes@[2 * x + 1].0 == receiver_of(x)
                    &&& lifetimes@[2 * x].1.creation_loc == creation@[x]
                    &&& lifetimes@[2 * x + 1].1.creation_loc == creation@[x]
                    &&& !lifetimes@[2 * x + 1].1.moved_to_thread
                },
            forall|k: int|
                0 <= k < lifetimes@.len() ==> !(#[trigger] lifetimes@[k]).1.escapes && lifetimes@[k].1.drop_locs@.len()
                    == 0,
        decreases channels@.len() - c,
    {
        let ns: usize = syncs.len();
        assert(2 * c + 1 < ns);
        let ghost s0 = syncs@;
        let mut sender_syncs: Vec<(FunDeclId, Location)> = Vec::new();
        syncs.set_and_swap(2 * c, &mut sender_syncs);
        let ghost s1 = syncs@;
        let mut receiver_syncs: Vec<(FunDeclId, Location)> = Vec::new();
        syncs.set_and_swap(2 * c + 1, &mut receiver_syncs);
        proof {
            assert(sender_syncs == s0[2 * c as int]);
            assert(receiver_syncs == s1[2 * c + 1]);
            assert(s1[2 * c + 1] == s0[2 * c + 1]);
            assert forall|k: int| 2 * (c + 1) <= k < syncs@.len() implies #[trigger] syncs@[k] == sf[k] by {
                assert(syncs@[k] == s1[k]);
                assert(s1[k] == s0[k]);
            }
        }
        let sender = EndpointId { channel: ChannelId(c), kind: EndpointKind::Sender };
        let receiver = EndpointId { channel: ChannelId(c), kind: EndpointKind::Receiver };
        let ghost before = lifetimes@;
        lifetimes.push(
            (
                sender,
                EndpointLifetime {
                    creation_loc: creation[c],
                    drop_locs: Vec::new(),
                    sync_locs: sender_syncs,
                    escapes: false,
                    moved_to_thread: moved[2 * c],
                },
            ),
        );
        lifetimes.push(
            (
                receiver,
                EndpointLifetime {
                    creation_loc: creation[c],
                    drop_locs: Vec::new(),
                    sync_locs: receiver_syncs,
                    escapes: false,
                    moved_to_thread: moved[2 * c + 1],
                },
            ),
        );
        proof {
            assert forall|x: int| 0 <= x < c + 1 implies {
                &&& (#[trigger] lifetimes@[2 * x]).0 == sender_of(x)
                &&& lifetimes@[2 * x + 1].0 == receiver_of(x)
                &&& lifetimes@[2 * x].1.creation_loc == creation@[x]
                &&& lifetimes@[2 * x + 1].1.creation_loc == creation@[x]
                &&& !lifetimes@[2 * x + 1].1.moved_to_thread
            } by {
                if x < c {
                    assert(lifetimes@[2 * x] == before[2 * x]);
                    assert(lifetimes@[2 * x + 1] == before[2 * x + 1]);
                }
            }
            assert forall|k: int| 0 <= k < lifetimes@.len() implies !(#[trigger] lifetimes@[k]).1.escapes
                && lifetimes@[k].1.drop_locs@.len() == 0 by {
                if k < before.len() {
                    assert(lifetimes@[k] == before[k]);
                }
            }
            assert forall|x: int| 0 <= x < c + 1 implies (#[trigger] lifetimes@[2 * x]).1.moved_to_thread == moved@[2 * x] by {
                if x < c {
                    assert(lifetimes@[2 * x] == before[2 * x]);
                }
            }
            assert forall|x: int| 0 <= x < c + 1 implies (#[trigger] lifetimes@[2 * x]).1.sync_locs@ == sf[2 * x]@ by {
                if x < c {
                    assert(lifetimes@[2 * x] == before[2 * x]);
                }
            }
            assert forall|x: int| 0 <= x < c + 1 implies (#[trigger] lifetimes@[2 * x + 1]).1.sync_locs@ == sf[2 * x + 1]@ by {
                if x < c {
                    assert(lifetimes@[2 * x + 1] == before[2 * x + 1]);
                }
            }
        }
        c = c + 1;
    }
    proof {
        assert forall|x: int| 0 <= x < channels@.len() implies (#[trigger] lifetimes@[2 * x]).1.sync_locs@ == locs_for(
            evs,
            sender_of(x),
        ) by {
            assert(endpoint_at(2 * x) == sender_of(x));
        }
        assert forall|x: int| 0 <= x < channels@.len() implies (#[trigger] lifetimes@[2 * x + 1]).1.sync_locs@ == locs_for(
            evs,
            receiver_of(x),
        ) by {
            assert(endpoint_at(2 * x + 1) == receiver_of(x));
        }
    }
    (local_to_endpoint, channels, lifetimes)
}

/// Where function `f` has no body, no block of it moves a sender.
proof fn lemma_no_spawn_moves(krate: TranslatedCrate, l2e: Seq<((FunDeclId, LocalId), EndpointId)>, f: int, n: int, moved: Seq<bool>)
    requires
        krate.body_of(f) is None,
        moved.len() == 2 * n,
        forall|c: int|
            0 <= c < n ==> (#[trigger] moved[2 * c] <==> exists|f0: int, b0: int| f0 < f && #[trigger] spawn_moves(krate, l2e, f0, b0, c)),
    ensures
        forall|c: int|
            0 <= c < n ==> (#[trigger] moved[2 * c] <==> exists|f0: int, b0: int| f0 < f + 1 && #[trigger] spawn_moves(krate, l2e, f0, b0, c)),
{
    assert forall|c: int| 0 <= c < n implies (#[trigger] moved[2 * c] <==> exists|f0: int, b0: int|
        f0 < f + 1 && #[trigger] spawn_moves(krate, l2e, f0, b0, c)) by {
        if exists|f0: int, b0: int| f0 < f + 1 && #[trigger] spawn_moves(krate, l2e, f0, b0, c) {
            let (f0, b0) = choose|f0: int, b0: int| f0 < f + 1 && #[trigger] spawn_moves(krate, l2e, f0, b0, c);
            assert(f0 != f);
        }
    }
}

/// Block `b` of function `f` moves the sender of channel `mc`, if any, and no other.
proof fn lemma_block_moves(
    krate: TranslatedCrate,
    l2e: Seq<((FunDeclId, LocalId), EndpointId)>,
    f: int,
    b: int,
    n: int,
    before: Seq<bool>,
    after: Seq<bool>,
    mc: Option<int>,
)
    requires
        before.len() == 2 * n,
        after.len() == 2 * n,
        forall|c: int|
            0 <= c < n ==> (#[trigger] before[2 * c] <==> exists|f0: int, b0: int|
                (f0 < f || (f0 == f && b0 < b)) && #[trigger] spawn_moves(krate, l2e, f0, b0, c)),
        forall|c: int| 0 <= c < n ==> (#[trigger] spawn_moves(krate, l2e, f, b, c) <==> mc == Some(c)),
        forall|c: int| 0 <= c < n ==> after[2 * c] == (before[2 * c] || mc == Some(c)),
    ensures
        forall|c: int|
            0 <= c < n ==> (#[trigger] after[2 * c] <==> exists|f0: int, b0: int|
                (f0 < f || (f0 == f && b0 < b + 1)) && #[trigger] spawn_moves(krate, l2e, f0, b0, c)),
{
    assert forall|c: int| 0 <= c < n implies (#[trigger] after[2 * c] <==> exists|f0: int, b0: int|
        (f0 < f || (f0 == f && b0 < b + 1)) && #[trigger] spawn_moves(krate, l2e, f0, b0, c)) by {
        if exists|f0: int, b0: int| (f0 < f || (f0 == f && b0 < b + 1)) && #[trigger] spawn_moves(krate, l2e, f0, b0, c) {
            let (f0, b0) = choose|f0: int, b0: int| (f0 < f || (f0 == f && b0 < b + 1)) && #[trigger] spawn_moves(krate, l2e, f0, b0, c);
            if f0 == f && b0 == b {
                assert(mc == Some(c));
            }
        }
        if mc == Some(c) {
            assert(spawn_moves(krate, l2e, f, b, c));
        }
    }
}

/// After the last block of function `f`, the moves of its blocks are all counted.
proof fn lemma_body_moves_done(krate: TranslatedCrate, l2e: Seq<((FunDeclId, LocalId), EndpointId)>, f: int, nb: int, n: int, moved: Seq<bool>)
    requires
        krate.body_of(f) is Some,
        krate.body_of(f)->0.body@.len() == nb,
        moved.len() == 2 * n,
        forall|c: int|
            0 <= c < n ==> (#[trigger] moved[2 * c] <==> exists|f0: int, b0: int|
                (f0 < f || (f0 == f && b0 < nb)) && #[trigger] spawn_moves(krate, l2e, f0, b0, c)),
    ensures
        forall|c: int|
            0 <= c < n ==> (#[trigger] moved[2 * c] <==> exists|f0: int, b0: int| f0 < f + 1 && #[trigger] spawn_moves(krate, l2e, f0, b0, c)),
{
    assert forall|c: int| 0 <= c < n implies (#[trigger] moved[2 * c] <==> exists|f0: int, b0: int|
        f0 < f + 1 && #[trigger] spawn_moves(krate, l2e, f0, b0, c)) by {
        if exists|f0: int, b0: int| f0 < f + 1 && #[trigger] spawn_moves(krate, l2e, f0, b0, c) {
            let (f0, b0) = choose|f0: int, b0: int| f0 < f + 1 && #[trigger] spawn_moves(krate, l2e, f0, b0, c);
            if f0 == f {
                assert(b0 < nb);
            }
        }
    }
}

/// What `last_pair_entry` finds is one of the recorded values.
proof fn lemma_last_pair_in<V>(m: Seq<((FunDeclId, LocalId), V)>, f: FunDeclId, l: LocalId)
    ensures
        last_pair_entry(m, f, l) is Some ==> exists|k: int| 0 <= k < m.len() && (#[trigger] m[k]).1 == last_pair_entry(m, f, l)->0,
    decreases m.len(),
{
    if m.len() > 0 && m.last().0 != (f, l) {
        lemma_last_pair_in(m.drop_last(), f, l);
        if last_pair_entry(m, f, l) is Some {
            let k = choose|k: int| 0 <= k < m.drop_last().len() && (#[trigger] m.drop_last()[k]).1 == last_pair_entry(m.drop_last(), f, l)->0;
            assert(m[k] == m.drop_last()[k]);
        }
    } else if m.len() > 0 {
        assert(m[m.len() - 1] == m.last());
    }
}


// ---------------------------------------------------------------------------
// Receives with no send
// ---------------------------------------------------------------------------

pub open spec fn orphan_explanation() -> Seq<char> {
    "Receiver calls recv() but no corresponding Sender::send() is found in the same function"@
}

/// The first channel entry recorded for `c`.
pub open spec fn channel_entry(channels: Seq<(ChannelId, (EndpointId, EndpointId))>, c: ChannelId) -> Option<
    (EndpointId, EndpointId),
>
    decreases channels.len(),
{
    if channels.len() == 0 {
        None
    } else if channels[0].0 == c {
        Some(channels[0].1)
    } else {
        channel_entry(channels.drop_first(), c)
    }
}

/// The first lifetime recorded for endpoint `ep`.
pub open spec fn lifetime_moved(lifetimes: Seq<(EndpointId, EndpointLifetime)>, ep: EndpointId) -> Option<bool>
    decreases lifetimes.len(),
{
    if lifetimes.len() == 0 {
        None
    } else if lifetimes[0].0 == ep {
        Some(lifetimes[0].1.moved_to_thread)
    } else {
        lifetime_moved(lifetimes.drop_first(), ep)
    }
}

/// The sender of channel `c` was moved into a spawned thread.
pub open spec fn sender_moved(
    channels: Seq<(ChannelId, (EndpointId, EndpointId))>,
    lifetimes: Seq<(EndpointId, EndpointLifetime)>,
    c: ChannelId,
) -> bool {
    match channel_entry(channels, c) {
        Some((sender, _)) => lifetime_moved(lifetimes, sender) == Some(true),
        None => false,
    }
}

fn find_channel(channels: &Vec<(ChannelId, (EndpointId, EndpointId))>, c: ChannelId) -> (r: Option<
    (EndpointId, EndpointId),
>)
    ensures
        r == channel_entry(channels@, c),
{
    let mut i: usize = 0;
    assert(channels@.skip(0) =~= channels@);
    while i < channels.len()
        invariant
            i <= channels@.len(),
            channel_entry(channels@, c) == channel_entry(channels@.skip(i as int), c),
        decreases channels@.len() - i,
    {
        assert(channels@.skip(i as int).drop_first() =~= channels@.skip(i + 1));
        if channels[i].0 == c {
            return Some(channels[i].1);
        }
        i = i + 1;
    }
    None
}

fn find_moved(lifetimes: &Vec<(EndpointId, EndpointLifetime)>, ep: EndpointId) -> (r: Option<bool>)
    ensures
        r == lifetime_moved(lifetimes@, ep),
{
    let mut i: usize = 0;
    assert(lifetimes@.skip(0) =~= lifetimes@);
    while i < lifetimes.len()
        invariant
            i <= lifetimes@.len(),
            lifetime_moved(lifetimes@, ep) == lifetime_moved(lifetimes@.skip(i as int), ep),
        decreases lifetimes@.len() - i,
    {
        assert(lifetimes@.skip(i as int).drop_first() =~= lifetimes@.skip(i + 1));
        if lifetimes[i].0 == ep {
            return Some(lifetimes[i].1.moved_to_thread);
        }
        i = i + 1;
    }
    None
}

/// The endpoint of call `s` of function `f`, if its local maps to one.
pub open spec fn site_endpoint(
    l2e: Seq<((FunDeclId, LocalId), EndpointId)>,
    f: FunDeclId,
    s: ChannelCallSite,
) -> Option<EndpointId> {
    match s.ch_local {
        Some(cl) => last_pair_entry(l2e, f, cl),
        None => None,
    }
}

/// Some send among `ss` of function `f` uses channel `c`.
pub open spec fn has_send_on(
    l2e: Seq<((FunDeclId, LocalId), EndpointId)>,
    f: FunDeclId,
    ss: Seq<ChannelCallSite>,
    c: ChannelId,
) -> bool {
    exists|k: int|
        0 <= k < ss.len() && (#[trigger] ss[k]).api == ChannelApi::Send && site_endpoint(l2e, f, ss[k]) is Some
            && site_endpoint(l2e, f, ss[k])->0.channel == c
}

/// Receive `j` of entry `e` is on a channel that the function never sends on,
/// and whose sender was not moved into a thread.
pub open spec fn orphan_recv(
    sites: Seq<(FunDeclId, Vec<ChannelCallSite>)>,
    l2e: Seq<((FunDeclId, LocalId), EndpointId)>,
    channels: Seq<(ChannelId, (EndpointId, EndpointId))>,
    lifetimes: Seq<(EndpointId, EndpointLifetime)>,
    e: int,
    j: int,
) -> bool {
    &&& 0 <= e < sites.len()
    &&& 0 <= j < sites[e].1@.len()
    &&& {
        let f = sites[e].0;
        let ss = sites[e].1@;
        &&& ss[j].api == ChannelApi::Recv
        &&& site_endpoint(l2e, f, ss[j]) is Some
        &&& !has_send_on(l2e, f, ss, site_endpoint(l2e, f, ss[j])->0.channel)
        &&& !sender_moved(channels, lifetimes, site_endpoint(l2e, f, ss[j])->0.channel)
    }
}

/// Report `r` describes orphan receive `j` of entry `e`.
pub open spec fn describes_orphan(
    krate: TranslatedCrate,
    sites: Seq<(FunDeclId, Vec<ChannelCallSite>)>,
    l2e: Seq<((FunDeclId, LocalId), EndpointId)>,
    channels: Seq<(ChannelId, (EndpointId, EndpointId))>,
    lifetimes: Seq<(EndpointId, EndpointLifetime)>,
    e: int,
    j: int,
    r: Report,
) -> bool {
    let d = r->OrphanSender_0.diagnosis;
    &&& orphan_recv(sites, l2e, channels, lifetimes, e, j)
    &&& krate.body_of(sites[e].0 as int) is Some
    &&& d.fn_name@ == fun_name(krate, sites[e].0 as int)->0
    &&& d.receiver_recv_span@ == span_text(loc_span(krate.body_of(sites[e].0 as int)->0, sites[e].1@[j].loc))
}

pub open spec fn is_orphan_report(
    krate: TranslatedCrate,
    sites: Seq<(FunDeclId, Vec<ChannelCallSite>)>,
    l2e: Seq<((FunDeclId, LocalId), EndpointId)>,
    channels: Seq<(ChannelId, (EndpointId, EndpointId))>,
    lifetimes: Seq<(EndpointId, EndpointLifetime)>,
    r: Report,
) -> bool {
    &&& r is OrphanSender
    &&& r->OrphanSender_0.bug_kind@ == "OrphanSender"@
    &&& r->OrphanSender_0.possibility@ == "Possibly"@
    &&& r->OrphanSender_0.explanation@ == orphan_explanation()
    &&& r->OrphanSender_0.diagnosis.explanation@ == orphan_explanation()
    &&& r->OrphanSender_0.diagnosis.channel_type@ == "std::sync::mpsc::channel"@
    &&& exists|e: int, j: int| #[trigger] describes_orphan(krate, sites, l2e, channels, lifetimes, e, j, r)
}

/// Receive `j` of entry `e` is an orphan in a function with a body.
pub open spec fn orphan_reported(
    krate: TranslatedCrate,
    sites: Seq<(FunDeclId, Vec<ChannelCallSite>)>,
    l2e: Seq<((FunDeclId, LocalId), EndpointId)>,
    channels: Seq<(ChannelId, (EndpointId, EndpointId))>,
    lifetimes: Seq<(EndpointId, EndpointLifetime)>,
    e: int,
    j: int,
) -> bool {
    orphan_recv(sites, l2e, channels, lifetimes, e, j) && krate.body_of(sites[e].0 as int) is Some
}

/// The orphan receives among the first `j` sites of entry `e`, in order.
pub open spec fn orphans_in(
    krate: TranslatedCrate,
    sites: Seq<(FunDeclId, Vec<ChannelCallSite>)>,
    l2e: Seq<((FunDeclId, LocalId), EndpointId)>,
    channels: Seq<(ChannelId, (EndpointId, EndpointId))>,
    lifetimes: Seq<(EndpointId, EndpointLifetime)>,
    e: int,
    j: int,
) -> Seq<(int, int)>
    decreases j,
{
    if j <= 0 {
        Seq::empty()
    } else {
        orphans_in(krate, sites, l2e, channels, lifetimes, e, j - 1) + if orphan_reported(
            krate,
            sites,
            l2e,
            channels,
            lifetimes,
            e,
            j - 1,
        ) {
            seq![(e, j - 1)]
        } else {
            Seq::empty()
        }
    }
}

/// The orphan receives of the first `e` entries, in order.
pub open spec fn orphans_upto(
    krate: TranslatedCrate,
    sites: Seq<(FunDeclId, Vec<ChannelCallSite>)>,
    l2e: Seq<((FunDeclId, LocalId), EndpointId)>,
    channels: Seq<(ChannelId, (EndpointId, EndpointId))>,
    lifetimes: Seq<(EndpointId, EndpointLifetime)>,
    e: int,
) -> Seq<(int, int)>
    decreases e,
{
    if e <= 0 {
        Seq::empty()
    } else {
        orphans_upto(krate, sites, l2e, channels, lifetimes, e - 1) + orphans_in(
            krate,
            sites,
            l2e,
            channels,
            lifetimes,
            e - 1,
            sites[e - 1].1@.len() as int,
        )
    }
}

/// In a function without a body no receive is reported.
proof fn lemma_no_orphans_without_body(
    krate: TranslatedCrate,
    sites: Seq<(FunDeclId, Vec<ChannelCallSite>)>,
    l2e: Seq<((FunDeclId, LocalId), EndpointId)>,
    channels: Seq<(ChannelId, (EndpointId, EndpointId))>,
    lifetimes: Seq<(EndpointId, EndpointLifetime)>,
    e: int,
    j: int,
)
    requires
        krate.body_of(sites[e].0 as int) is None,
    ensures
        orphans_in(krate, sites, l2e, channels, lifetimes, e, j).len() == 0,
    decreases j,
{
    if j > 0 {
        lemma_no_orphans_without_body(krate, sites, l2e, channels, lifetimes, e, j - 1);
    }
}

fn endpoint_of_site(
    l2e: &Vec<((FunDeclId, LocalId), EndpointId)>,
    f: FunDeclId,
    s: &ChannelCallSite,
) -> (r: Option<EndpointId>)
    ensures
        r == site_endpoint(l2e@, f, *s),
{
    match s.ch_local {
        Some(cl) => lookup_pair_last(l2e, f, cl),
        None => None,
    }
}

fn sends_on(
    l2e: &Vec<((FunDeclId, LocalId), EndpointId)>,
    f: FunDeclId,
    sites: &Vec<ChannelCallSite>,
    c: ChannelId,
) -> (r: bool)
    ensures
        r == has_send_on(l2e@, f, sites@, c),
{
    let mut k: usize = 0;
    while k < sites.len()
        invariant
            k <= sites@.len(),
            forall|j: int|
                0 <= j < k ==> !((#[trigger] sites@[j]).api == ChannelApi::Send && site_endpoint(l2e@, f, sites@[j])
                    is Some && site_endpoint(l2e@, f, sites@[j])->0.channel == c),
        decreases sites@.len() - k,
    {
        if sites[k].api == ChannelApi::Send {
            match endpoint_of_site(l2e, f, &sites[k]) {
                Some(ep) => {
                    if ep.channel == c {
                        return true;
                    }
                },
                None => {},
            }
        }
        k = k + 1;
    }
    false
}

/// Receives on a channel that the function never sends on, whose sender was
/// not moved into a spawned thread.
pub fn detect_orphan_senders(
    krate: &TranslatedCrate,
    callsites: &ChannelCallSites,
    local_to_endpoint: &Vec<((FunDeclId, LocalId), EndpointId)>,
    channels: &Vec<(ChannelId, (EndpointId, EndpointId))>,
    lifetimes: &Vec<(EndpointId, EndpointLifetime)>,
) -> (r: Vec<Report>)
    requires
        channel_sites_valid(*krate, callsites@),
    ensures
        forall|x: int|
            0 <= x < r@.len() ==> is_orphan_report(
                *krate,
                callsites@,
                local_to_endpoint@,
                channels@,
                lifetimes@,
                #[trigger] r@[x],
            ),
        r@.len() == orphans_upto(*krate, callsites@, local_to_endpoint@, channels@, lifetimes@, callsites@.len() as int).len(),
        forall|x: int|
            0 <= x < r@.len() ==> {
                let p = orphans_upto(*krate, callsites@, local_to_endpoint@, channels@, lifetimes@, callsites@.len() as int)[x];
                describes_orphan(*krate, callsites@, local_to_endpoint@, channels@, lifetimes@, p.0, p.1, #[trigger] r@[x])
            },
{
    let mut reports: Vec<Report> = Vec::new();
    let mut e: usize = 0;
    while e < callsites.len()
        invariant
            channel_sites_valid(*krate, callsites@),
            e <= callsites@.len(),
            reports@.len() == orphans_upto(*krate, callsites@, local_to_endpoint@, channels@, lifetimes@, e as int).len(),
            forall|x: int|
                0 <= x < reports@.len() ==> {
                    let p = orphans_upto(*krate, callsites@, local_to_endpoint@, channels@, lifetimes@, e as int)[x];
                    describes_orphan(*krate, callsites@, local_to_endpoint@, channels@, lifetimes@, p.0, p.1, #[trigger] reports@[x])
                },
            forall|x: int|
                0 <= x < reports@.len() ==> is_orphan_report(
                    *krate,
                    callsites@,
                    local_to_endpoint@,
                    channels@,
                    lifetimes@,
                    #[trigger] reports@[x],
                ),
        decreases callsites@.len() - e,
    {
        let fun_id = callsites[e].0;
        let sites = &callsites[e].1;
        let ghost before = orphans_upto(*krate, callsites@, local_to_endpoint@, channels@, lifetimes@, e as int);
        proof {
            if krate.body_of(fun_id as int) is None {
                lemma_no_orphans_without_body(*krate, callsites@, local_to_endpoint@, channels@, lifetimes@, e as int, sites@.len() as int);
                assert(orphans_upto(*krate, callsites@, local_to_endpoint@, channels@, lifetimes@, e + 1) =~= before);
            }
        }
        if fun_id >= krate.fun_decls.len() {
            e = e + 1;
            continue;
        }
        let body = match &krate.fun_decls[fun_id] {
            Some(d) => match &d.body {
                Some(b) => b,
                None => {
                    e = e + 1;
                    continue;
                },
            },
            None => {
                e = e + 1;
                continue;
            },
        };
        let mut j: usize = 0;
        while j < sites.len()
            invariant
                channel_sites_valid(*krate, callsites@),
                e < callsites@.len(),
                fun_id == callsites@[e as int].0,
                *sites == callsites@[e as int].1,
                krate.body_of(fun_id as int) == Some(*body),
                j <= sites@.len(),
                before == orphans_upto(*krate, callsites@, local_to_endpoint@, channels@, lifetimes@, e as int),
                reports@.len() == (before + orphans_in(*krate, callsites@, local_to_endpoint@, channels@, lifetimes@, e as int, j as int)).len(),
                forall|x: int|
                    0 <= x < reports@.len() ==> {
                        let p = (before + orphans_in(*krate, callsites@, local_to_endpoint@, channels@, lifetimes@, e as int, j as int))[x];
                        describes_orphan(*krate, callsites@, local_to_endpoint@, channels@, lifetimes@, p.0, p.1, #[trigger] reports@[x])
                    },
                forall|x: int|
                    0 <= x < reports@.len() ==> is_orphan_report(
                        *krate,
                        callsites@,
                        local_to_endpoint@,
                        channels@,
                        lifetimes@,
                        #[trigger] reports@[x],
                    ),
            decreases sites@.len() - j,
        {
            let recv = &sites[j];
            if recv.api == ChannelApi::Recv {
                match endpoint_of_site(local_to_endpoint, fun_id, recv) {
                    Some(ep) => {
                        let cid = ep.channel;
                        if !sends_on(local_to_endpoint, fun_id, sites, cid) {
                            let sender_sent_elsewhere = match find_channel(channels, cid) {
                                Some((sender, _)) => match find_moved(lifetimes, sender) {
                                    Some(m) => m,
                                    None => false,
                                },
                                None => false,
                            };
                            if !sender_sent_elsewhere {
                                proof {
                                    assert(callsites@[e as int].1@[j as int].loc.block < body.body@.len());
                                }
                                let recv_span = span_for_loc(body, recv.loc);
                                let diagnosis = OrphanSenderDiagnosis {
                                    fn_name: fun_name_or_empty(krate, fun_id),
                                    channel_type: text("std::sync::mpsc::channel"),
                                    receiver_recv_span: format_span(&recv_span),
                                    explanation: text(
                                        "Receiver calls recv() but no corresponding Sender::send() is found in the same function",
                                    ),
                                };
                                let rep = Report::OrphanSender(
                                    ReportContent::new(
                                        text("OrphanSender"),
                                        text("Possibly"),
                                        diagnosis,
                                        text(
                                            "Receiver calls recv() but no corresponding Sender::send() is found in the same function",
                                        ),
                                    ),
                                );
                                proof {
                                    assert(orphan_recv(
                                        callsites@,
                                        local_to_endpoint@,
                                        channels@,
                                        lifetimes@,
                                        e as int,
                                        j as int,
                                    ));
                                    assert(describes_orphan(
                                        *krate,
                                        callsites@,
                                        local_to_endpoint@,
                                        channels@,
                                        lifetimes@,
                                        e as int,
                                        j as int,
                                        rep,
                                    ));
                                }
                                let ghost rb = reports@;
                                let ghost cur = before + orphans_in(*krate, callsites@, local_to_endpoint@, channels@, lifetimes@, e as int, j as int);
                                reports.push(rep);
                                proof {
                                    assert(orphan_reported(*krate, callsites@, local_to_endpoint@, channels@, lifetimes@, e as int, j as int));
                                    let nxt = before + orphans_in(*krate, callsites@, local_to_endpoint@, channels@, lifetimes@, e as int, j + 1);
                                    assert(nxt =~= cur.push((e as int, j as int)));
                                    assert forall|x: int| 0 <= x < reports@.len() implies {
                                        let p = nxt[x];
                                        describes_orphan(*krate, callsites@, local_to_endpoint@, channels@, lifetimes@, p.0, p.1, #[trigger] reports@[x])
                                    } by {
                                        if x < rb.len() {
                                            assert(reports@[x] == rb[x]);
                                            assert(nxt[x] == cur[x]);
                                        }
                                    }
                                }
                                j = j + 1;
                                continue;
                            }
                        }
                    },
                    None => {},
                }
            }
            proof {
                assert(!orphan_reported(*krate, callsites@, local_to_endpoint@, channels@, lifetimes@, e as int, j as int));
                assert(orphans_in(*krate, callsites@, local_to_endpoint@, channels@, lifetimes@, e as int, j + 1)
                    =~= orphans_in(*krate, callsites@, local_to_endpoint@, channels@, lifetimes@, e as int, j as int));
            }
            j = j + 1;
        }
        proof {
            assert(orphans_upto(*krate, callsites@, local_to_endpoint@, channels@, lifetimes@, e + 1)
                =~= before + orphans_in(*krate, callsites@, local_to_endpoint@, channels@, lifetimes@, e as int, sites@.len() as int));
        }
        e = e + 1;
    }
    reports
}

// ---------------------------------------------------------------------------
// Senders that never send
// ---------------------------------------------------------------------------

/// A sender moved into a spawned thread that is never used to send.
pub open spec fn sender_never_sends(entry: (EndpointId, EndpointLifetime)) -> bool {
    entry.0.kind == EndpointKind::Sender && entry.1.moved_to_thread && entry.1.sync_locs@.len() == 0
}

/// How many of the endpoints are senders that never send.
pub open spec fn never_sending_count(lifetimes: Seq<(EndpointId, EndpointLifetime)>) -> nat
    decreases lifetimes.len(),
{
    if lifetimes.len() == 0 {
        0
    } else {
        never_sending_count(lifetimes.drop_last()) + if sender_never_sends(lifetimes.last()) {
            1nat
        } else {
            0nat
        }
    }
}

/// The report on a sender that never sends.
pub open spec fn is_missing_send_report(r: Report) -> bool {
    &&& r is MissingSend
    &&& r->MissingSend_0.bug_kind@ == "MissingSend"@
    &&& r->MissingSend_0.possibility@ == "Possibly"@
    &&& r->MissingSend_0.explanation@ == "Sender was moved to a spawned thread but no send() call was found"@
    &&& r->MissingSend_0.diagnosis.fn_name@.len() == 0
    &&& r->MissingSend_0.diagnosis.channel_type@ == "std::sync::mpsc::channel"@
    &&& r->MissingSend_0.diagnosis.sender_span@ == "creation site"@
    &&& r->MissingSend_0.diagnosis.explanation@
        == "Sender was moved to a spawned thread but no send() call was found in any analyzed function"@
}

/// One report for each sender that was moved into a spawned thread and is
/// never used to send.
pub fn detect_missing_sends(
    krate: &TranslatedCrate,
    callsites: &ChannelCallSites,
    local_to_endpoint: &Vec<((FunDeclId, LocalId), EndpointId)>,
    channels: &Vec<(ChannelId, (EndpointId, EndpointId))>,
    lifetimes: &Vec<(EndpointId, EndpointLifetime)>,
) -> (r: Vec<Report>)
    ensures
        r@.len() == never_sending_count(lifetimes@),
        forall|x: int| 0 <= x < r@.len() ==> is_missing_send_report(#[trigger] r@[x]),
{
    let mut reports: Vec<Report> = Vec::new();
    let mut i: usize = 0;
    while i < lifetimes.len()
        invariant
            i <= lifetimes@.len(),
            reports@.len() == never_sending_count(lifetimes@.take(i as int)),
            forall|x: int| 0 <= x < reports@.len() ==> is_missing_send_report(#[trigger] reports@[x]),
        decreases lifetimes@.len() - i,
    {
        proof {
            assert(lifetimes@.take(i + 1).drop_last() =~= lifetimes@.take(i as int));
            assert(lifetimes@.take(i + 1).last() == lifetimes@[i as int]);
        }
        let endpoint = lifetimes[i].0;
        let lt = &lifetimes[i].1;
        if endpoint.kind == EndpointKind::Sender && lt.moved_to_thread && lt.sync_locs.len() == 0 {
            let name = String::new();
            assert(name@ =~= Seq::<char>::empty());
            let diagnosis = MissingSendDiagnosis {
                fn_name: name,
                channel_type: text("std::sync::mpsc::channel"),
                sender_span: text("creation site"),
                explanation: text(
                    "Sender was moved to a spawned thread but no send() call was found in any analyzed function",
                ),
            };
            reports.push(
                Report::MissingSend(
                    ReportContent::new(
                        text("MissingSend"),
                        text("Possibly"),
                        diagnosis,
                        text("Sender was moved to a spawned thread but no send() call was found"),
                    ),
                ),
            );
        }
        i = i + 1;
    }
    assert(lifetimes@.take(lifetimes@.len() as int) =~= lifetimes@);
    reports
}

/// What a function's path says of the channel API it is: the constructors `sync_channel`
/// and `channel` by their paths; past those, a function whose path names a sender
/// (`Sender`, which `SyncSender` contains too) and `::send` sends, whatever kind of
/// channel it is on; one that names `Receiver` and `::recv`, and no send, receives; and a
/// path that names none of these is no channel API.
pub proof fn law_channel_api_by_path(name: Seq<char>)
    ensures
        crate::text::has_prefix(name, "std::sync::mpsc::sync_channel"@) ==> channel_api_of_name(name) == Some(ChannelApi::SyncChannel),
        crate::text::has_prefix(name, "std::sync::mpsc::channel"@) ==> channel_api_of_name(name) == Some(ChannelApi::Channel),
        !crate::text::has_prefix(name, "std::sync::mpsc::sync_channel"@) && !crate::text::has_prefix(name, "std::sync::mpsc::channel"@) ==> {
            &&& (crate::text::has_sub(name, "Sender"@) && crate::text::has_sub(name, "::send"@) <==> channel_api_of_name(name) == Some(
                ChannelApi::Send,
            ))
            &&& (!(crate::text::has_sub(name, "Sender"@) && crate::text::has_sub(name, "::send"@)) && crate::text::has_sub(name, "Receiver"@)
                && crate::text::has_sub(name, "::recv"@) <==> channel_api_of_name(name) == Some(ChannelApi::Recv))
        },
        !crate::text::has_sub(name, "std::sync::mpsc::"@) && !crate::text::has_sub(name, "Sender"@) && !crate::text::has_sub(name, "Receiver"@)
            ==> channel_api_of_name(name) is None,
{
    reveal_strlit("std::sync::mpsc::sync_channel");
    reveal_strlit("std::sync::mpsc::channel");
    reveal_strlit("std::sync::mpsc::");
    reveal_strlit("SyncSender");
    reveal_strlit("Sender");
    if crate::text::has_prefix(name, "std::sync::mpsc::channel"@) {
        crate::text::lemma_prefix_chars(name, "std::sync::mpsc::channel"@);
        if crate::text::has_prefix(name, "std::sync::mpsc::sync_channel"@) {
            crate::text::lemma_prefix_chars(name, "std::sync::mpsc::sync_channel"@);
            assert("std::sync::mpsc::sync_channel"@[17] == 's');
            assert("std::sync::mpsc::channel"@[17] == 'c');
            assert(false);
        }
    }
    if crate::text::has_sub(name, "SyncSender"@) {
        assert(crate::text::occurs_at("SyncSender"@, "Sender"@, 4)) by {
            assert("SyncSender"@.subrange(4, 10) =~= "Sender"@);
        }
        crate::text::lemma_sub_of_sub(name, "SyncSender"@, "Sender"@);
    }
    if crate::text::has_prefix(name, "std::sync::mpsc::sync_channel"@) {
        crate::text::lemma_prefix_is_sub(name, "std::sync::mpsc::sync_channel"@);
        assert(crate::text::occurs_at("std::sync::mpsc::sync_channel"@, "std::sync::mpsc::"@, 0)) by {
            assert("std::sync::mpsc::sync_channel"@.subrange(0, 17) =~= "std::sync::mpsc::"@);
        }
        crate::text::lemma_sub_of_sub(name, "std::sync::mpsc::sync_channel"@, "std::sync::mpsc::"@);
    }
    if crate::text::has_prefix(name, "std::sync::mpsc::channel"@) {
        crate::text::lemma_prefix_is_sub(name, "std::sync::mpsc::channel"@);
        assert(crate::text::occurs_at("std::sync::mpsc::channel"@, "std::sync::mpsc::"@, 0)) by {
            assert("std::sync::mpsc::channel"@.subrange(0, 17) =~= "std::sync::mpsc::"@);
        }
        crate::text::lemma_sub_of_sub(name, "std::sync::mpsc::channel"@, "std::sync::mpsc::"@);
    }
}

} // verus!
