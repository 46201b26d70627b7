//! The options of the command line tool, and what they decide: which
//! detectors run, on which crates, and how cargo is invoked.

use vstd::prelude::*;

use crate::lockbud::config::{detector_kind_named, DetectorKind, LockbudConfig};
use crate::text::{chars_of, has_prefix, str_has_prefix};
use vstd::string::StrSliceExecFns;

verus! {

/// The options of the command line tool.
#[derive(Debug)]
pub struct LockbudCli {
    /// Detector kinds to run, separated by commas; all when absent.
    pub kind: Option<String>,
    /// Crate names for the white or black list, separated by commas.
    pub crate_list: Option<String>,
    /// Whether the crate list is a black list.
    pub blacklist: bool,
    /// Where the reports go.
    pub report_file: Option<String>,
    /// Where the translated crate goes.
    pub dest_file: Option<String>,
    /// Further arguments for cargo.
    pub cargo_args: Vec<String>,
}

/// The characters that `str::trim` removes: Unicode white space.
pub open spec fn is_white(c: char) -> bool {
    ||| c == '\t'
    ||| c == '\n'
    ||| c == '\u{0B}'
    ||| c == '\u{0C}'
    ||| c == '\r'
    ||| c == ' '
    ||| c == '\u{85}'
    ||| c == '\u{A0}'
    ||| c == '\u{1680}'
    ||| ('\u{2000}' <= c && c <= '\u{200A}')
    ||| c == '\u{2028}'
    ||| c == '\u{2029}'
    ||| c == '\u{202F}'
    ||| c == '\u{205F}'
    ||| c == '\u{3000}'
}

fn white(c: char) -> (r: bool)
    ensures
        r == is_white(c),
{
    c == '\t' || c == '\n' || c == '\u{0B}' || c == '\u{0C}' || c == '\r' || c == ' ' || c == '\u{85}' || c
        == '\u{A0}' || c == '\u{1680}' || ('\u{2000}' <= c && c <= '\u{200A}') || c == '\u{2028}' || c
        == '\u{2029}' || c == '\u{202F}' || c == '\u{205F}' || c == '\u{3000}'
}

/// `s` without its leading white space.
pub open spec fn trim_start(s: Seq<char>) -> Seq<char>
    decreases s.len(),
{
    if s.len() > 0 && is_white(s[0]) {
        trim_start(s.drop_first())
    } else {
        s
    }
}

/// `s` without its trailing white space.
pub open spec fn trim_end(s: Seq<char>) -> Seq<char>
    decreases s.len(),
{
    if s.len() > 0 && is_white(s.last()) {
        trim_end(s.drop_last())
    } else {
        s
    }
}

/// `s` without white space at either end.
pub open spec fn trimmed(s: Seq<char>) -> Seq<char> {
    trim_end(trim_start(s))
}

/// The pieces of `s` between commas, in order; one empty piece for an empty text.
pub open spec fn comma_pieces(s: Seq<char>) -> Seq<Seq<char>>
    decreases s.len(),
{
    if s.len() == 0 {
        seq![Seq::empty()]
    } else if s.last() == ',' {
        comma_pieces(s.drop_last()).push(Seq::empty())
    } else {
        let p = comma_pieces(s.drop_last());
        p.update(p.len() - 1, p.last().push(s.last()))
    }
}

proof fn lemma_pieces_nonempty(s: Seq<char>)
    ensures
        comma_pieces(s).len() >= 1,
    decreases s.len(),
{
    if s.len() > 0 {
        lemma_pieces_nonempty(s.drop_last());
    }
}

/// The characters `from..to` of `s` without white space at either end.
fn trim_range(s: &str, cs: &Vec<char>, from: usize, to: usize) -> (r: String)
    requires
        cs@ == s@,
        from <= to <= cs@.len(),
    ensures
        r@ == trimmed(cs@.subrange(from as int, to as int)),
{
    let mut start: usize = from;
    while start < to && white(cs[start])
        invariant
            from <= start <= to <= cs@.len(),
            trim_start(cs@.subrange(from as int, to as int)) == trim_start(cs@.subrange(start as int, to as int)),
        decreases to - start,
    {
        assert(cs@.subrange(start as int, to as int).drop_first() =~= cs@.subrange(start + 1, to as int));
        start = start + 1;
    }
    assert(trim_start(cs@.subrange(start as int, to as int)) == cs@.subrange(start as int, to as int)) by {
        let sub = cs@.subrange(start as int, to as int);
        if sub.len() > 0 {
            assert(sub[0] == cs@[start as int]);
        }
    }
    let mut end: usize = to;
    while end > start && white(cs[end - 1])
        invariant
            from <= start <= end <= to <= cs@.len(),
            trim_end(cs@.subrange(start as int, to as int)) == trim_end(cs@.subrange(start as int, end as int)),
        decreases end,
    {
        assert(cs@.subrange(start as int, end as int).drop_last() =~= cs@.subrange(start as int, end - 1));
        end = end - 1;
    }
    assert(trim_end(cs@.subrange(start as int, end as int)) == cs@.subrange(start as int, end as int)) by {
        let sub = cs@.subrange(start as int, end as int);
        if sub.len() > 0 {
            assert(sub.last() == cs@[end - 1]);
        }
    }
    let piece = s.substring_char(start, end);
    crate::text::string_of(piece)
}

/// The pieces of `s` between commas, each without white space at its ends.
pub fn split_trimmed(s: &str) -> (r: Vec<String>)
    ensures
        r@.len() == comma_pieces(s@).len(),
        forall|i: int| 0 <= i < r@.len() ==> (#[trigger] r@[i])@ == trimmed(comma_pieces(s@)[i]),
{
    let cs = chars_of(s);
    let mut ranges: Vec<(usize, usize)> = Vec::new();
    let mut cur: usize = 0;
    let mut i: usize = 0;
    proof {
        assert(cs@.take(0) =~= Seq::<char>::empty());
        assert(cs@.subrange(0, 0) =~= Seq::<char>::empty());
    }
    while i < cs.len()
        invariant
            cs@ == s@,
            cur <= i <= cs@.len(),
            ranges@.len() + 1 == comma_pieces(cs@.take(i as int)).len(),
            forall|k: int|
                0 <= k < ranges@.len() ==> (#[trigger] ranges@[k]).0 <= ranges@[k].1 <= cs@.len()
                    && cs@.subrange(ranges@[k].0 as int, ranges@[k].1 as int) == comma_pieces(cs@.take(i as int))[k],
            cs@.subrange(cur as int, i as int) == comma_pieces(cs@.take(i as int)).last(),
        decreases cs@.len() - i,
    {
        let c = cs[i];
        proof {
            assert(cs@.take(i + 1).drop_last() =~= cs@.take(i as int));
            assert(cs@.take(i + 1).last() == c);
            lemma_pieces_nonempty(cs@.take(i as int));
        }
        let ghost before = ranges@;
        if c == ',' {
            ranges.push((cur, i));
            cur = i + 1;
            proof {
                assert(cs@.subrange(cur as int, i + 1) =~= Seq::<char>::empty());
                assert forall|k: int| 0 <= k < ranges@.len() implies (#[trigger] ranges@[k]).0 <= ranges@[k].1 <= cs@.len()
                    && cs@.subrange(ranges@[k].0 as int, ranges@[k].1 as int) == comma_pieces(cs@.take(i + 1))[k] by {
                    if k < before.len() {
                        assert(ranges@[k] == before[k]);
                    }
                }
            }
        } else {
            proof {
                assert(cs@.subrange(cur as int, i + 1) =~= cs@.subrange(cur as int, i as int).push(c));
                assert forall|k: int| 0 <= k < ranges@.len() implies (#[trigger] ranges@[k]).0 <= ranges@[k].1 <= cs@.len()
                    && cs@.subrange(ranges@[k].0 as int, ranges@[k].1 as int) == comma_pieces(cs@.take(i + 1))[k] by {
                    assert(ranges@[k] == before[k]);
                }
            }
        }
        i = i + 1;
    }
    assert(cs@.take(cs@.len() as int) =~= cs@);
    let ghost before = ranges@;
    ranges.push((cur, cs.len()));
    proof {
        assert forall|k: int| 0 <= k < ranges@.len() implies (#[trigger] ranges@[k]).0 <= ranges@[k].1 <= cs@.len()
            && cs@.subrange(ranges@[k].0 as int, ranges@[k].1 as int) == comma_pieces(s@)[k] by {
            if k < before.len() {
                assert(ranges@[k] == before[k]);
            }
        }
    }
    let mut out: Vec<String> = Vec::new();
    let mut k: usize = 0;
    while k < ranges.len()
        invariant
            cs@ == s@,
            k <= ranges@.len(),
            ranges@.len() == comma_pieces(s@).len(),
            forall|j: int|
                0 <= j < ranges@.len() ==> (#[trigger] ranges@[j]).0 <= ranges@[j].1 <= cs@.len()
                    && cs@.subrange(ranges@[j].0 as int, ranges@[j].1 as int) == comma_pieces(s@)[j],
            out@.len() == k,
            forall|j: int| 0 <= j < k ==> (#[trigger] out@[j])@ == trimmed(comma_pieces(s@)[j]),
        decreases ranges@.len() - k,
    {
        let (a, b) = ranges[k];
        out.push(trim_range(s, &cs, a, b));
        k = k + 1;
    }
    out
}

/// The detectors that the names select, in order; names that select none are left out.
pub open spec fn kinds_selected(names: Seq<Seq<char>>) -> Seq<DetectorKind>
    decreases names.len(),
{
    if names.len() == 0 {
        Seq::empty()
    } else {
        match detector_kind_named(names.last()) {
            Some(k) => kinds_selected(names.drop_last()).push(k),
            None => kinds_selected(names.drop_last()),
        }
    }
}

/// The trimmed pieces of a comma list.
pub open spec fn trimmed_pieces(s: Seq<char>) -> Seq<Seq<char>> {
    Seq::new(comma_pieces(s).len(), |i: int| trimmed(comma_pieces(s)[i]))
}

/// The detectors selected by a comma list of their names.
pub fn parse_kinds(list: &str) -> (r: Vec<DetectorKind>)
    ensures
        r@ == kinds_selected(trimmed_pieces(list@)),
{
    let names = split_trimmed(list);
    let ghost tp = trimmed_pieces(list@);
    let mut kinds: Vec<DetectorKind> = Vec::new();
    let mut i: usize = 0;
    while i < names.len()
        invariant
            names@.len() == tp.len(),
            tp == trimmed_pieces(list@),
            forall|j: int| 0 <= j < names@.len() ==> (#[trigger] names@[j])@ == tp[j],
            i <= names@.len(),
            kinds@ == kinds_selected(tp.take(i as int)),
        decreases names@.len() - i,
    {
        proof {
            assert(tp.take(i + 1).drop_last() =~= tp.take(i as int));
            assert(tp.take(i + 1).last() == names@[i as int]@);
        }
        match DetectorKind::from_str(names[i].as_str()) {
            Some(k) => kinds.push(k),
            None => {},
        }
        i = i + 1;
    }
    assert(tp.take(tp.len() as int) =~= tp);
    kinds
}

pub open spec fn views(v: Seq<String>) -> Seq<Seq<char>> {
    Seq::new(v.len(), |i: int| v[i]@)
}

proof fn lemma_views_push(v: Seq<String>, x: String)
    ensures
        views(v.push(x)) == views(v).push(x@),
{
    assert(views(v.push(x)) =~= views(v).push(x@));
}

/// The configuration that the options ask for: the selected detectors (all
/// when no kind is given), the report file, and the crate list as a white
/// list or, with `blacklist`, a black list.
pub fn config_from_cli(opts: &LockbudCli) -> (r: LockbudConfig)
    ensures
        match opts.kind {
            Some(k) => r.kinds@ == kinds_selected(trimmed_pieces(k@)),
            None => r.kinds@.len() == 0,
        },
        match opts.crate_list {
            Some(l) => if opts.blacklist {
                r.crate_blacklist matches Some(b) && views(b@) == trimmed_pieces(l@) && r.crate_whitelist is None
            } else {
                r.crate_whitelist matches Some(w) && views(w@) == trimmed_pieces(l@) && r.crate_blacklist is None
            },
            None => r.crate_whitelist is None && r.crate_blacklist is None,
        },
        match opts.report_file {
            Some(f) => r.report_file matches Some(g) && g@ == f@,
            None => r.report_file is None,
        },
{
    let mut config = LockbudConfig::new();
    match &opts.kind {
        Some(k) => {
            config.kinds = parse_kinds(k.as_str());
        },
        None => {},
    }
    config.report_file = match &opts.report_file {
        Some(f) => Some(f.clone()),
        None => None,
    };
    match &opts.crate_list {
        Some(list) => {
            let crates = split_trimmed(list.as_str());
            assert(views(crates@) =~= trimmed_pieces(list@));
            if opts.blacklist {
                config.crate_blacklist = Some(crates);
            } else {
                config.crate_whitelist = Some(crates);
            }
        },
        None => {},
    }
    config
}

/// The elements after the first two; none where there are fewer.
pub open spec fn after_two(s: Seq<Seq<char>>) -> Seq<Seq<char>> {
    if s.len() >= 2 {
        s.subrange(2, s.len() as int)
    } else {
        Seq::empty()
    }
}

/// The arguments for the option parser: as given, or, when the tool runs as
/// a cargo subcommand (`cargo-lockbud lockbud ...`), the name `lockbud`
/// followed by the arguments after the subcommand's name.
pub fn subcommand_args(args: Vec<String>, is_cargo_subcommand: bool) -> (r: Vec<String>)
    ensures
        is_cargo_subcommand ==> views(r@) == seq!["lockbud"@] + after_two(views(args@)),
        !is_cargo_subcommand ==> r@ == args@,
{
    if !is_cargo_subcommand {
        return args;
    }
    let mut v: Vec<String> = Vec::new();
    v.push(crate::text::string_of("lockbud"));
    proof {
        lemma_views_push(Seq::empty(), v@[0]);
        assert(Seq::<String>::empty().push(v@[0]) =~= v@);
    }
    if args.len() < 2 {
        assert(views(v@) =~= seq!["lockbud"@] + after_two(views(args@)));
        return v;
    }
    let mut i: usize = 2;
    assert(views(args@).subrange(2, 2) =~= Seq::<Seq<char>>::empty());
    assert(views(v@) =~= seq!["lockbud"@] + views(args@).subrange(2, 2));
    while i < args.len()
        invariant
            2 <= i <= args@.len(),
            views(v@) == seq!["lockbud"@] + views(args@).subrange(2, i as int),
        decreases args@.len() - i,
    {
        let ghost before = v@;
        let x = args[i].clone();
        v.push(x);
        proof {
            lemma_views_push(before, x);
            assert(views(args@).subrange(2, i + 1) =~= views(args@).subrange(2, i as int).push(args@[i as int]@));
        }
        i = i + 1;
        assert(views(v@) =~= seq!["lockbud"@] + views(args@).subrange(2, i as int));
    }
    v
}

/// How cargo is invoked: its subcommand and arguments, and whether it
/// builds tests.
pub struct CargoInvocation {
    pub args: Vec<String>,
    pub building_test: bool,
}

/// Some argument begins with `p`.
pub open spec fn specified(args: Seq<String>, p: Seq<char>) -> bool {
    exists|i: int| 0 <= i < args.len() && has_prefix((#[trigger] args[i])@, p)
}

pub fn is_specified(args: &Vec<String>, p: &str) -> (r: bool)
    ensures
        r == specified(args@, p@),
{
    let mut i: usize = 0;
    while i < args.len()
        invariant
            i <= args@.len(),
            forall|j: int| 0 <= j < i ==> !has_prefix((#[trigger] args@[j])@, p@),
        decreases args@.len() - i,
    {
        if str_has_prefix(args[i].as_str(), p) {
            return true;
        }
        i = i + 1;
    }
    false
}

/// The subcommand and its arguments: `test --no-run` where a test or the
/// library is asked for, else `build`; then `--target` and the host unless a
/// target is given; then the user's arguments.
pub open spec fn cargo_args_spec(cargo_args: Seq<String>, host: Seq<char>) -> Seq<Seq<char>> {
    let sub = if specified(cargo_args, "--test"@) || specified(cargo_args, "--lib"@) {
        seq!["test"@, "--no-run"@]
    } else {
        seq!["build"@]
    };
    let target = if specified(cargo_args, "--target"@) {
        Seq::empty()
    } else {
        seq!["--target"@, host]
    };
    sub + target + views(cargo_args)
}

/// How cargo is invoked for these arguments on this host.
pub fn cargo_invocation(cargo_args: &Vec<String>, host: &str) -> (r: CargoInvocation)
    ensures
        views(r.args@) == cargo_args_spec(cargo_args@, host@),
        r.building_test == (specified(cargo_args@, "--test"@) || specified(cargo_args@, "--lib"@)),
{
    let mut args: Vec<String> = Vec::new();
    let building_test = is_specified(cargo_args, "--test") || is_specified(cargo_args, "--lib");
    if building_test {
        args.push(crate::text::string_of("test"));
        args.push(crate::text::string_of("--no-run"));
    } else {
        args.push(crate::text::string_of("build"));
    }
    if !is_specified(cargo_args, "--target") {
        args.push(crate::text::string_of("--target"));
        args.push(crate::text::string_of(host));
    }
    let ghost head = views(args@);
    let mut i: usize = 0;
    while i < cargo_args.len()
        invariant
            i <= cargo_args@.len(),
            views(args@) == head + views(cargo_args@).take(i as int),
        decreases cargo_args@.len() - i,
    {
        let ghost before = args@;
        let x = cargo_args[i].clone();
        args.push(x);
        proof {
            lemma_views_push(before, x);
            assert(views(cargo_args@).take(i + 1) =~= views(cargo_args@).take(i as int).push(cargo_args@[i as int]@));
        }
        i = i + 1;
        assert(views(args@) =~= head + views(cargo_args@).take(i as int));
    }
    assert(views(cargo_args@).take(cargo_args@.len() as int) =~= views(cargo_args@));
    assert(views(args@) =~= cargo_args_spec(cargo_args@, host@));
    CargoInvocation { args, building_test }
}

} // verus!
