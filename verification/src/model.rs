//! The mathematical model of the tokenizer.
//!
//! Every type of the library has a view here, over `Seq<char>` instead of
//! `String`, and the whole scan is a recursive specification function over
//! the sequence of argument views: `scan` walks the arguments and
//! accumulates occurrences, free arguments and errors; `tokens_result`
//! adds subcommand resolution and the error-mode policy on top.  The
//! executable tokenizer is proved equal to this model.

use vstd::prelude::*;

use crate::err::{err1, err2, ErrV, OptParseErrorKind};
use crate::strutil::{byte_char, find_char_from, is_prefix, str_le, str_lt};
use crate::{Arg, LexConfig};

verus! {

/// View of an option descriptor.
#[verifier::ext_equal]
pub struct OptV {
    pub sho: u8,
    pub lon: Seq<char>,
    pub has: Arg,
    pub num: u8,
}

impl OptV {
    /// The long name when there is one, else the one-character short name,
    /// else the empty string.
    pub open spec fn lon_or_sho(&self) -> Seq<char> {
        if self.lon.len() > 0 {
            self.lon
        } else if self.sho != 0u8 {
            seq![byte_char(self.sho)]
        } else {
            Seq::empty()
        }
    }
}

/// View of a recognized occurrence.
#[verifier::ext_equal]
pub struct NameValV {
    pub opt: OptV,
    pub val: Option<Seq<char>>,
    pub was_long: bool,
}

impl NameValV {
    /// The name under which the occurrence was matched: the long name after
    /// a long-form match, else the one-character short name.
    pub open spec fn name(&self) -> Seq<char> {
        if self.was_long {
            self.opt.lon
        } else {
            seq![byte_char(self.opt.sho)]
        }
    }
}

/// View of the complete result of one parse pass.
#[verifier::ext_equal]
pub struct TokensV {
    pub namevals: Seq<NameValV>,
    pub double_m: bool,
    pub subcmd: Option<Seq<char>>,
    pub free: Seq<Seq<char>>,
}

/// View of the tokenizer itself: tables, subcommand universe, policy.
#[verifier::ext_equal]
pub struct LexV {
    pub opts: Seq<OptV>,
    pub sho_idx: Seq<(u8, usize)>,
    pub subcmds: Seq<Seq<char>>,
    pub config: LexConfig,
}

/// A table is sorted ascending by long name; equal adjacent long names are
/// allowed only when empty (several options may have no long name).
pub open spec fn opts_sorted(opts: Seq<OptV>) -> bool {
    forall|i: int|
        1 <= i < opts.len() ==> (str_lt(#[trigger] opts[i - 1].lon, opts[i].lon) || (opts[i
            - 1].lon == opts[i].lon && opts[i].lon.len() == 0))
}

/// A short index is strictly ascending by key, and each entry points into
/// the table at an option carrying that short name.
pub open spec fn sho_idx_wf(opts: Seq<OptV>, sho_idx: Seq<(u8, usize)>) -> bool {
    &&& forall|k: int|
        0 <= k < sho_idx.len() ==> (#[trigger] sho_idx[k]).1 < opts.len() && opts[sho_idx[k].1
            as int].sho == sho_idx[k].0
    &&& forall|k: int| 1 <= k < sho_idx.len() ==> (#[trigger] sho_idx[k - 1]).0 < sho_idx[k].0
}

/// Both table invariants together: what a caller owes the tokenizer.
pub open spec fn tables_wf(opts: Seq<OptV>, sho_idx: Seq<(u8, usize)>) -> bool {
    opts_sorted(opts) && sho_idx_wf(opts, sho_idx)
}

/// The views of a slice of argument strings.
pub open spec fn views_of_strs(args: Seq<&str>) -> Seq<Seq<char>> {
    Seq::new(args.len(), |i: int| args[i]@)
}

/// Pushing onto a vector pushes onto its element-wise view.
pub proof fn lemma_vec_deep_view_push<T: DeepView>(pre: Vec<T>, post: Vec<T>, x: T)
    requires
        post@ == pre@.push(x),
    ensures
        post.deep_view() =~= pre.deep_view().push(x.deep_view()),
{
    assert forall|k: int| 0 <= k < post@.len() implies post.deep_view()[k]
        == pre.deep_view().push(x.deep_view())[k] by {
        if k < pre@.len() {
            assert(post@[k] == pre@[k]);
        } else {
            assert(post@[k] == x);
        }
    }
}

/// Removing a vector's first element drops the first of its element-wise
/// view.
pub proof fn lemma_vec_deep_view_remove_first<T: DeepView>(pre: Vec<T>, post: Vec<T>)
    requires
        pre@.len() > 0,
        post@ == pre@.remove(0),
    ensures
        post.deep_view() =~= pre.deep_view().skip(1),
{
    assert forall|k: int| 0 <= k < post@.len() implies post.deep_view()[k]
        == pre.deep_view().skip(1)[k] by {
        assert(post@[k] == pre@[k + 1]);
    }
}

/// Appending to a vector appends to its element-wise view.
pub proof fn lemma_vec_deep_view_add<T: DeepView>(pre: Vec<T>, post: Vec<T>, other: Vec<T>)
    requires
        post@ == pre@ + other@,
    ensures
        post.deep_view() =~= pre.deep_view() + other.deep_view(),
{
    assert forall|k: int| 0 <= k < post@.len() implies post.deep_view()[k] == (pre.deep_view()
        + other.deep_view())[k] by {
        if k < pre@.len() {
            assert(post@[k] == pre@[k]);
        } else {
            assert(post@[k] == other@[k - pre@.len()]);
        }
    }
}

/// The literal double-dash token.
pub open spec fn double_dash() -> Seq<char> {
    seq!['-', '-']
}

/// The view of an optional following argument.
pub open spec fn view_opt_str(s: Option<&str>) -> Option<Seq<char>> {
    match s {
        Some(t) => Some(t@),
        None => None,
    }
}

/// In a sorted table, long names never descend over a range.
pub proof fn lemma_opts_sorted_le(opts: Seq<OptV>, k: int, j: int)
    requires
        opts_sorted(opts),
        0 <= k <= j < opts.len(),
    ensures
        str_le(opts[k].lon, opts[j].lon),
    decreases j - k,
{
    if k < j {
        lemma_opts_sorted_le(opts, k, j - 1);
        crate::strutil::lemma_str_le_trans(
            opts[k].lon,
            opts[j - 1].lon,
            opts[j].lon,
        );
    }
}

/// In a well-formed short index, keys ascend strictly over a range.
pub proof fn lemma_sho_sorted_lt(sho_idx: Seq<(u8, usize)>, k: int, j: int)
    requires
        forall|t: int| 1 <= t < sho_idx.len() ==> (#[trigger] sho_idx[t - 1]).0 < sho_idx[t].0,
        0 <= k < j < sho_idx.len(),
    ensures
        sho_idx[k].0 < sho_idx[j].0,
    decreases j - k,
{
    assert(sho_idx[j - 1].0 < sho_idx[j].0);
    if k < j - 1 {
        lemma_sho_sorted_lt(sho_idx, k, j - 1);
    }
}

// ------------------------------------------------------------------
// resolution: exact match and prefix (abbreviation) match
// ------------------------------------------------------------------
/// First index at or after `i` whose long name is exactly `name`.
pub open spec fn find_exact_from(opts: Seq<OptV>, name: Seq<char>, i: int) -> Option<int>
    decreases opts.len() - i,
{
    if i < 0 || i >= opts.len() {
        None
    } else if opts[i].lon == name {
        Some(i)
    } else {
        find_exact_from(opts, name, i + 1)
    }
}

/// First index whose long name is exactly `name`.
pub open spec fn find_exact(opts: Seq<OptV>, name: Seq<char>) -> Option<int> {
    find_exact_from(opts, name, 0)
}

/// What `find_exact_from` finds: the least match at or after `i`, or a
/// guarantee that none exists.
pub proof fn lemma_find_exact_from_props(opts: Seq<OptV>, name: Seq<char>, i: int)
    requires
        0 <= i,
    ensures
        match find_exact_from(opts, name, i) {
            Some(j) => i <= j < opts.len() && opts[j].lon == name && forall|k: int|
                i <= k < j ==> opts[k].lon != name,
            None => forall|k: int| i <= k < opts.len() ==> opts[k].lon != name,
        },
    decreases opts.len() - i,
{
    if i < opts.len() && opts[i].lon != name {
        lemma_find_exact_from_props(opts, name, i + 1);
    }
}

/// The options whose long name has `name` as a prefix, in table order.
pub open spec fn pmatches(opts: Seq<OptV>, name: Seq<char>) -> Seq<OptV>
    decreases opts.len(),
{
    if opts.len() == 0 {
        Seq::empty()
    } else if is_prefix(name, opts.last().lon) {
        pmatches(opts.drop_last(), name).push(opts.last())
    } else {
        pmatches(opts.drop_last(), name)
    }
}

/// The hint text of an ambiguous option: each candidate's long name,
/// quoted behind its double dash.
pub open spec fn opt_hint(pm: Seq<OptV>) -> Seq<char>
    decreases pm.len(),
{
    if pm.len() == 0 {
        "possibilities:"@
    } else {
        opt_hint(pm.drop_last()) + " '--"@ + pm.last().lon + "'"@
    }
}

/// Resolution of a long name: the first exact match wins; otherwise, with
/// abbreviation enabled, a sole prefix match resolves, none is invalid and
/// several are ambiguous; with abbreviation disabled, no exact match is
/// invalid.
pub open spec fn resolve_long(opts: Seq<OptV>, abbreviate: bool, name: Seq<char>) -> Result<
    OptV,
    ErrV,
> {
    match find_exact(opts, name) {
        Some(i) => Ok(opts[i]),
        None => {
            if abbreviate {
                let pm = pmatches(opts, name);
                if pm.len() == 1 {
                    Ok(pm[0])
                } else if pm.len() == 0 {
                    Err(err1(OptParseErrorKind::InvalidOption, name))
                } else {
                    Err(err2(OptParseErrorKind::AmbiguousOption, name, opt_hint(pm)))
                }
            } else {
                Err(err1(OptParseErrorKind::InvalidOption, name))
            }
        },
    }
}

// ------------------------------------------------------------------
// long-option parsing
// ------------------------------------------------------------------
/// A long token's text after its dashes, split at the first `=`: the
/// candidate name, and the inline value if there was one.
pub open spec fn eq_split(tail: Seq<char>) -> (Seq<char>, Option<Seq<char>>) {
    match find_char_from(tail, '=', 0) {
        Some(k) => (tail.subrange(0, k), Some(tail.subrange(k + 1, tail.len() as int))),
        None => (tail, None),
    }
}

/// Parsing one long token: resolve the name, then apply the option's
/// arity.  The second component says whether the following raw argument
/// was consumed as the value.
pub open spec fn parse_long(
    opts: Seq<OptV>,
    abbreviate: bool,
    tail: Seq<char>,
    next: Option<Seq<char>>,
) -> (Result<NameValV, ErrV>, bool) {
    let (name, inline_val) = eq_split(tail);
    match resolve_long(opts, abbreviate, name) {
        Err(e) => (Err(e), false),
        Ok(opt) => match opt.has {
            Arg::No => match inline_val {
                Some(v) => (Err(err2(OptParseErrorKind::UnexpectedOptionArgument, name, v)), false),
                None => (Ok(NameValV { opt, val: None, was_long: true }), false),
            },
            Arg::Maybe => (
                Ok(
                    NameValV {
                        opt,
                        val: Some(
                            match inline_val {
                                Some(v) => v,
                                None => Seq::empty(),
                            },
                        ),
                        was_long: true,
                    },
                ),
                false,
            ),
            Arg::Yes => match inline_val {
                Some(v) => (Ok(NameValV { opt, val: Some(v), was_long: true }), false),
                None => match next {
                    Some(v) => (Ok(NameValV { opt, val: Some(v), was_long: true }), true),
                    None => (Err(err1(OptParseErrorKind::MissingOptionArgument, name)), false),
                },
            },
        },
    }
}

// ------------------------------------------------------------------
// short-option cluster parsing
// ------------------------------------------------------------------
/// First index in the short index whose key is the given character.
pub open spec fn find_sho_from(sho_idx: Seq<(u8, usize)>, c: char, k: int) -> Option<int>
    decreases sho_idx.len() - k,
{
    if k < 0 || k >= sho_idx.len() {
        None
    } else if sho_idx[k].0 as u32 == c as u32 {
        Some(k)
    } else {
        find_sho_from(sho_idx, c, k + 1)
    }
}

/// First index in the short index whose key is the given character.
pub open spec fn find_sho(sho_idx: Seq<(u8, usize)>, c: char) -> Option<int> {
    find_sho_from(sho_idx, c, 0)
}

/// What `find_sho_from` finds: the least match at or after `k`, or a
/// guarantee that none exists.
pub proof fn lemma_find_sho_from_props(sho_idx: Seq<(u8, usize)>, c: char, k: int)
    requires
        0 <= k,
    ensures
        match find_sho_from(sho_idx, c, k) {
            Some(j) => k <= j < sho_idx.len() && sho_idx[j].0 as u32 == c as u32 && forall|t: int|
                k <= t < j ==> (#[trigger] sho_idx[t]).0 as u32 != c as u32,
            None => forall|t: int|
                k <= t < sho_idx.len() ==> (#[trigger] sho_idx[t]).0 as u32 != c as u32,
        },
    decreases sho_idx.len() - k,
{
    if k < sho_idx.len() && sho_idx[k].0 as u32 != c as u32 {
        lemma_find_sho_from_props(sho_idx, c, k + 1);
    }
}

/// Scanning a cluster of short options from position `j` on, with `nvs`
/// and `errs` already produced by the earlier positions.  An unknown
/// character is recorded and scanning continues; a value-taking option
/// swallows the rest of the cluster, or the next raw argument (third
/// component true), and ends the cluster.
pub open spec fn cluster_scan(
    opts: Seq<OptV>,
    sho_idx: Seq<(u8, usize)>,
    cl: Seq<char>,
    j: int,
    next: Option<Seq<char>>,
    nvs: Seq<NameValV>,
    errs: Seq<ErrV>,
) -> (Seq<NameValV>, Seq<ErrV>, bool)
    decreases cl.len() - j,
{
    if j < 0 || j >= cl.len() {
        (nvs, errs, false)
    } else {
        let c = cl[j];
        match find_sho(sho_idx, c) {
            None => cluster_scan(
                opts,
                sho_idx,
                cl,
                j + 1,
                next,
                nvs,
                errs.push(err1(OptParseErrorKind::InvalidOption, seq![c])),
            ),
            Some(t) => {
                let opt = opts[sho_idx[t].1 as int];
                if opt.has == Arg::No {
                    cluster_scan(
                        opts,
                        sho_idx,
                        cl,
                        j + 1,
                        next,
                        nvs.push(NameValV { opt, val: None, was_long: false }),
                        errs,
                    )
                } else if j < cl.len() - 1 {
                    (
                        nvs.push(NameValV { opt, val: Some(cl.skip(j + 1)), was_long: false }),
                        errs,
                        false,
                    )
                } else if opt.has == Arg::Maybe {
                    (
                        nvs.push(
                            NameValV { opt, val: Some(Seq::empty()), was_long: false },
                        ),
                        errs,
                        false,
                    )
                } else {
                    match next {
                        Some(v) => (
                            nvs.push(NameValV { opt, val: Some(v), was_long: false }),
                            errs,
                            true,
                        ),
                        None => (
                            nvs,
                            errs.push(err1(OptParseErrorKind::MissingOptionArgument, seq![c])),
                            false,
                        ),
                    }
                }
            },
        }
    }
}

// ------------------------------------------------------------------
// the scan over all arguments
// ------------------------------------------------------------------
/// The accumulating state of one scan.
#[verifier::ext_equal]
pub struct ScanSt {
    pub namevals: Seq<NameValV>,
    pub free: Seq<Seq<char>>,
    pub errs: Seq<ErrV>,
    pub double_m: bool,
}

/// The state a scan starts from.
pub open spec fn init_st() -> ScanSt {
    ScanSt { namevals: Seq::empty(), free: Seq::empty(), errs: Seq::empty(), double_m: false }
}

/// One cluster outcome folded into the state.
pub open spec fn apply_cluster(st: ScanSt, nvs: Seq<NameValV>, errs: Seq<ErrV>) -> ScanSt {
    ScanSt { namevals: st.namevals + nvs, errs: st.errs + errs, ..st }
}

/// The scan itself, from argument `i` on.
///
/// A literal `--` under the stop-at-double-dash policy sets the marker and
/// turns every later argument into free text.  A token without a leading
/// dash is free text, and under stop-at-first-free ends the scan the same
/// way.  A `--name` token (outside long-only mode) is a long option; any
/// other `-...` token is a short cluster, except in long-only mode, where
/// the cluster attempt may be retried as a long name (`long_only_step`).
pub open spec fn scan(l: LexV, args: Seq<Seq<char>>, i: int, st: ScanSt) -> ScanSt
    decreases args.len() - i,
{
    if i < 0 || i >= args.len() {
        st
    } else {
        let cur = args[i];
        let next = if i + 1 < args.len() {
            Some(args[i + 1])
        } else {
            None
        };
        if l.config.stop_at_mm && cur == double_dash() {
            ScanSt { free: st.free + args.skip(i + 1), double_m: true, ..st }
        } else if cur.len() == 0 || cur[0] != '-' {
            if l.config.stop_at_free {
                ScanSt { free: st.free.push(cur) + args.skip(i + 1), ..st }
            } else {
                scan(l, args, i + 1, ScanSt { free: st.free.push(cur), ..st })
            }
        } else {
            let ts = token_step(l, cur, next);
            scan(
                l,
                args,
                i + 1 + (if ts.2 && i + 1 < args.len() {
                    1int
                } else {
                    0int
                }),
                apply_cluster(st, ts.0, ts.1),
            )
        }
    }
}

/// A long-parse outcome as a step triple: the occurrences and errors it
/// contributes, and whether the next raw argument was consumed.
pub open spec fn long_triple(r: (Result<NameValV, ErrV>, bool)) -> (
    Seq<NameValV>,
    Seq<ErrV>,
    bool,
) {
    match r.0 {
        Ok(nv) => (seq![nv], Seq::<ErrV>::empty(), r.1),
        Err(e) => (Seq::<NameValV>::empty(), seq![e], r.1),
    }
}

/// Whether a cluster attempt failed cleanly enough to retry the token as
/// a long name: it produced no occurrence, consumed nothing, and every
/// error is an unknown-option error.
pub open spec fn cluster_retries_long(r: (Seq<NameValV>, Seq<ErrV>, bool)) -> bool {
    r.0.len() == 0 && !r.2 && r.1.len() > 0 && forall|i: int|
        0 <= i < r.1.len() ==> (#[trigger] r.1[i]).kind == OptParseErrorKind::InvalidOption
}

/// The long-only handling of one single-dash token: the text after the
/// dash is tried first as a short cluster; only when that fails with
/// invalid-option errors alone, and the token has more than one character
/// after the dash, is it retried as a long name.  Single-character tokens
/// are always short-form.
pub open spec fn long_only_step(l: LexV, cur: Seq<char>, next: Option<Seq<char>>) -> (
    Seq<NameValV>,
    Seq<ErrV>,
    bool,
) {
    let cl = cluster_scan(l.opts, l.sho_idx, cur.skip(1), 0, next, Seq::empty(), Seq::empty());
    if cur.len() == 2 || !cluster_retries_long(cl) {
        cl
    } else {
        long_triple(parse_long(l.opts, l.config.abbreviate, cur.skip(1), next))
    }
}

/// The handling of one option token (a token that starts with a dash and
/// was not taken as a terminator or free text).
pub open spec fn token_step(l: LexV, cur: Seq<char>, next: Option<Seq<char>>) -> (
    Seq<NameValV>,
    Seq<ErrV>,
    bool,
) {
    if !l.config.long_only && cur.len() >= 2 && cur[1] == '-' {
        long_triple(parse_long(l.opts, l.config.abbreviate, cur.skip(2), next))
    } else if l.config.long_only {
        long_only_step(l, cur, next)
    } else {
        cluster_scan(l.opts, l.sho_idx, cur.skip(1), 0, next, Seq::empty(), Seq::empty())
    }
}

// ------------------------------------------------------------------
// subcommand resolution
// ------------------------------------------------------------------
/// First candidate equal to `name`.
pub open spec fn find_exact_sub_from(ss: Seq<Seq<char>>, name: Seq<char>, k: int) -> Option<int>
    decreases ss.len() - k,
{
    if k < 0 || k >= ss.len() {
        None
    } else if ss[k] == name {
        Some(k)
    } else {
        find_exact_sub_from(ss, name, k + 1)
    }
}

/// What `find_exact_sub_from` finds.
pub proof fn lemma_find_exact_sub_from_props(ss: Seq<Seq<char>>, name: Seq<char>, k: int)
    requires
        0 <= k,
    ensures
        match find_exact_sub_from(ss, name, k) {
            Some(j) => k <= j < ss.len() && ss[j] == name && forall|t: int|
                k <= t < j ==> ss[t] != name,
            None => forall|t: int| k <= t < ss.len() ==> ss[t] != name,
        },
    decreases ss.len() - k,
{
    if k < ss.len() && ss[k] != name {
        lemma_find_exact_sub_from_props(ss, name, k + 1);
    }
}

/// The candidates that have `name` as a prefix, in order.
pub open spec fn spmatches(ss: Seq<Seq<char>>, name: Seq<char>) -> Seq<Seq<char>>
    decreases ss.len(),
{
    if ss.len() == 0 {
        Seq::empty()
    } else if is_prefix(name, ss.last()) {
        spmatches(ss.drop_last(), name).push(ss.last())
    } else {
        spmatches(ss.drop_last(), name)
    }
}

/// The hint text of an ambiguous subcommand: each candidate, quoted.
pub open spec fn sub_hint(pm: Seq<Seq<char>>) -> Seq<char>
    decreases pm.len(),
{
    if pm.len() == 0 {
        "possibilities:"@
    } else {
        sub_hint(pm.drop_last()) + " '"@ + pm.last() + "'"@
    }
}

/// Resolution of a subcommand name against the universe: an exact match
/// wins; otherwise abbreviation applies as for long options.
pub open spec fn resolve_subcmd(ss: Seq<Seq<char>>, abbreviate: bool, name: Seq<char>) -> Result<
    Seq<char>,
    ErrV,
> {
    match find_exact_sub_from(ss, name, 0) {
        Some(k) => Ok(ss[k]),
        None => {
            if abbreviate {
                let pm = spmatches(ss, name);
                if pm.len() == 1 {
                    Ok(pm[0])
                } else if pm.len() == 0 {
                    Err(err1(OptParseErrorKind::InvalidSubcommand, name))
                } else {
                    Err(err2(OptParseErrorKind::AmbiguousSubcommand, name, sub_hint(pm)))
                }
            } else {
                Err(err1(OptParseErrorKind::InvalidSubcommand, name))
            }
        },
    }
}

/// Whether subcommand resolution runs after a scan: a universe was given,
/// no double dash ended the scan, and a usable first free argument exists.
pub open spec fn subcmd_applies(l: LexV, st: ScanSt) -> bool {
    l.subcmds.len() > 0 && !st.double_m && st.free.len() > 0 && st.free[0].len() > 0 && st.free[0]
        != double_dash()
}

// ------------------------------------------------------------------
// the whole pass
// ------------------------------------------------------------------
/// The whole pass: the scan, then subcommand resolution when it applies;
/// the subcommand error, if any, comes last.
pub open spec fn scan_result(l: LexV, args: Seq<Seq<char>>) -> (TokensV, Seq<ErrV>) {
    let st = scan(l, args, 0, init_st());
    if subcmd_applies(l, st) {
        match resolve_subcmd(l.subcmds, l.config.abbreviate, st.free[0]) {
            Ok(s) => (
                TokensV {
                    namevals: st.namevals,
                    double_m: st.double_m,
                    subcmd: Some(s),
                    free: st.free.skip(1),
                },
                st.errs,
            ),
            Err(e) => (
                TokensV {
                    namevals: st.namevals,
                    double_m: st.double_m,
                    subcmd: None,
                    free: st.free,
                },
                st.errs.push(e),
            ),
        }
    } else {
        (
            TokensV { namevals: st.namevals, double_m: st.double_m, subcmd: None, free: st.free },
            st.errs,
        )
    }
}

/// The result a caller sees: the tokens when no error was found, else all
/// errors in order, or the first alone in single-error mode.
pub open spec fn tokens_result(l: LexV, args: Seq<Seq<char>>) -> Result<TokensV, Seq<ErrV>> {
    let (t, errs) = scan_result(l, args);
    if errs.len() == 0 {
        Ok(t)
    } else if l.config.single_error {
        Err(seq![errs[0]])
    } else {
        Err(errs)
    }
}

// ------------------------------------------------------------------
// laws of resolution
// ------------------------------------------------------------------
/// An exact long-name match is always preferred over abbreviation: when
/// some option's long name is exactly the queried name, resolution
/// succeeds with an option of that very name, and never reports an
/// ambiguity, whether or not abbreviation is enabled.
pub proof fn lemma_exact_match_preferred(
    opts: Seq<OptV>,
    abbreviate: bool,
    name: Seq<char>,
    i: int,
)
    requires
        0 <= i < opts.len(),
        opts[i].lon == name,
    ensures
        resolve_long(opts, abbreviate, name) is Ok,
        resolve_long(opts, abbreviate, name)->Ok_0.lon == name,
{
    lemma_find_exact_from_props(opts, name, 0);
}

/// Abbreviation resolution: without an exact match, exactly one prefix
/// candidate resolves silently to that candidate, none at all is an
/// invalid option carrying the queried name, and two or more are an
/// ambiguous option carrying the queried name and the candidate list.
pub proof fn lemma_abbreviation_cases(opts: Seq<OptV>, name: Seq<char>)
    requires
        forall|k: int| 0 <= k < opts.len() ==> (#[trigger] opts[k].lon) != name,
    ensures
        pmatches(opts, name).len() == 1 ==> resolve_long(opts, true, name) == Ok::<OptV, ErrV>(
            pmatches(opts, name)[0],
        ),
        pmatches(opts, name).len() == 0 ==> resolve_long(opts, true, name) == Err::<OptV, ErrV>(
            err1(OptParseErrorKind::InvalidOption, name),
        ),
        pmatches(opts, name).len() >= 2 ==> resolve_long(opts, true, name) == Err::<OptV, ErrV>(
            err2(OptParseErrorKind::AmbiguousOption, name, opt_hint(pmatches(opts, name))),
        ),
{
    lemma_find_exact_from_props(opts, name, 0);
    assert(find_exact(opts, name) is None);
}

} // verus!
