//! Command-line flag and option tokenizer.
//!
//! A `Lex` scans raw argument strings against a pre-sorted table of option
//! descriptors (`Opt`) and a sorted short-name index, and returns the
//! recognized occurrences (`NameVal`), the free arguments and, when a
//! subcommand universe was supplied, the resolved subcommand, all bundled
//! in a `Tokens` value.  Failures are reported as `OptParseError` values,
//! either the first one alone or all of them, as the configuration asks.
//!
//! The behaviour of the tokenizer is stated against the specification
//! functions of the `model` module, and every public function carries a
//! contract that ties it to that model.

pub mod check;
pub mod err;
pub mod model;
pub mod strutil;

pub use err::OptParseError;
pub use err::OptParseErrorKind;
pub use err::OptParseErrors;

use vstd::prelude::*;

use crate::model::{LexV, NameValV, OptV, TokensV};

verus! {

/// Option number type: the opaque tag that a table gives to each option.
pub type OptNum = u8;

/// What a configuration object must answer after each applied occurrence:
/// whether help or version output was requested, so that a caller can stop
/// early.  Implemented by the caller's own configuration type.
pub trait HelpVersion {
    fn is_help(&self) -> bool;

    fn is_version(&self) -> bool;
}

/// Receiving the resolved subcommand.  Implemented by the caller's own
/// configuration type.
pub trait SubCommand {
    fn set_subcmd(&mut self, subcmd: String);
}

/// Whether an option takes no value, a mandatory value, or an optional value.
#[derive(Debug, Clone, Copy, PartialEq, Eq, Structural)]
pub enum Arg {
    No,
    Yes,
    Maybe,
}

/// Record type of an option table: one recognized option.
///
/// The table invariant asks that at least one of `sho` and `lon` is present
/// (`sho` of zero means "no short name", an empty `lon` means "no long
/// name"), and that a table is sorted ascending by `lon` with no duplicate
/// non-empty long names.
#[derive(Debug, Clone, PartialEq, Eq)]
pub struct Opt {
    /// short name, as a byte; `0` means none
    pub sho: u8,
    /// long name; empty means none
    pub lon: String,
    /// whether the option takes an argument
    pub has: Arg,
    /// unique number, the tag handed back to the caller
    pub num: OptNum,
}

impl View for Opt {
    type V = OptV;

    open spec fn view(&self) -> OptV {
        OptV { sho: self.sho, lon: self.lon@, has: self.has, num: self.num }
    }
}

impl DeepView for Opt {
    type V = OptV;

    open spec fn deep_view(&self) -> OptV {
        self.view()
    }
}

impl Opt {
    /// The long name when there is one, else the one-character short name,
    /// else the empty string.
    pub fn lon_or_sho(&self) -> (r: String)
        ensures
            r@ == self@.lon_or_sho(),
    {
        if !self.lon.as_str().is_empty() {
            self.lon.clone()
        } else if self.sho != 0u8 {
            strutil::byte_to_string(self.sho)
        } else {
            String::new()
        }
    }
}

/// A field-by-field copy of an option descriptor.
fn copy_opt(o: &Opt) -> (r: Opt)
    ensures
        r@ == o@,
{
    Opt { sho: o.sho, lon: o.lon.clone(), has: o.has, num: o.num }
}

/// Entity as the result of lexing: one recognized occurrence.
#[derive(Debug)]
pub struct NameVal {
    /// the matched descriptor
    pub opt: Opt,
    /// the value consumed for it, if any
    pub val: Option<String>,
    /// whether it was matched in long form
    pub was_long: bool,
}

impl View for NameVal {
    type V = NameValV;

    open spec fn view(&self) -> NameValV {
        NameValV {
            opt: self.opt@,
            val: match self.val {
                Some(ref s) => Some(s@),
                None => None,
            },
            was_long: self.was_long,
        }
    }
}

impl DeepView for NameVal {
    type V = NameValV;

    open spec fn deep_view(&self) -> NameValV {
        self.view()
    }
}

impl NameVal {
    /// The name under which the occurrence was matched: the long name
    /// after a long-form match, else the one-character short name.
    pub fn name(&self) -> (r: String)
        ensures
            r@ == self@.name(),
    {
        if self.was_long {
            self.opt.lon.clone()
        } else {
            strutil::byte_to_string(self.opt.sho)
        }
    }
}

/// Tokens as the result of lexing one whole argument list.
#[derive(Debug)]
pub struct Tokens {
    /// the recognized occurrences, in input order
    pub namevals: Vec<NameVal>,
    /// whether a literal `--` ended option scanning
    pub double_m: bool,
    /// the resolved subcommand, when a universe was supplied
    pub subcmd: Option<String>,
    /// the free arguments, in input order
    pub free: Vec<String>,
}

impl View for Tokens {
    type V = TokensV;

    open spec fn view(&self) -> TokensV {
        TokensV {
            namevals: self.namevals.deep_view(),
            double_m: self.double_m,
            subcmd: match self.subcmd {
                Some(ref s) => Some(s@),
                None => None,
            },
            free: self.free.deep_view(),
        }
    }
}

/// The policy under which a `Lex` works; each field answers to one of the
/// mutually independent scanning rules.
#[derive(Debug, Clone, Copy, PartialEq, Eq, Structural)]
pub struct LexConfig {
    /// resolve abbreviated long names and subcommands by prefix
    pub abbreviate: bool,
    /// single-dash tokens are tried as short clusters and may retry as
    /// long names; see `model::long_only_step`
    pub long_only: bool,
    /// stop at the first error and return it alone
    pub single_error: bool,
    /// a literal `--` ends option scanning
    pub stop_at_mm: bool,
    /// the first free argument ends option scanning
    pub stop_at_free: bool,
}

/// The gnu-style default policy: scanning stops at a literal `--`, options
/// and free arguments interleave otherwise, exact names only, long names
/// take two dashes, and all errors are collected.
pub open spec fn default_config() -> LexConfig {
    LexConfig {
        abbreviate: false,
        long_only: false,
        single_error: false,
        stop_at_mm: true,
        stop_at_free: false,
    }
}

impl Default for LexConfig {
    /// The gnu-style default configuration; see `default_config`.
    fn default() -> (r: Self)
        ensures
            r == default_config(),
    {
        LexConfig {
            abbreviate: false,
            long_only: false,
            single_error: false,
            stop_at_mm: true,
            stop_at_free: false,
        }
    }
}

/// Lexical analyzer: analyzes command-line arguments against its tables
/// and returns tokens.
#[derive(Debug)]
pub struct Lex {
    opts: Vec<Opt>,
    sho_idx: Vec<(u8, usize)>,
    subcmds: Vec<String>,
    config: LexConfig,
}

impl View for Lex {
    type V = LexV;

    closed spec fn view(&self) -> LexV {
        LexV {
            opts: self.opts.deep_view(),
            sho_idx: self.sho_idx@,
            subcmds: self.subcmds.deep_view(),
            config: self.config,
        }
    }
}

impl Lex {
    /// Whether this analyzer's tables meet their invariant; the caller
    /// supplies the tables sorted, and `check` can assert it.
    pub open spec fn wf(&self) -> bool {
        model::tables_wf(self@.opts, self@.sho_idx)
    }

    /// Create a lexical analyzer over the given tables, under the default
    /// configuration.
    pub fn create_with(opt_ary: &[Opt], sho_idx_ary: &[(u8, usize)]) -> (r: Lex)
        ensures
            r@.opts == opt_ary.deep_view(),
            r@.sho_idx == sho_idx_ary@,
            r@.subcmds =~= Seq::<Seq<char>>::empty(),
            r@.config == default_config(),
    {
        let mut opts: Vec<Opt> = Vec::new();
        let mut i: usize = 0;
        while i < opt_ary.len()
            invariant
                i <= opt_ary@.len(),
                opts.deep_view() =~= opt_ary.deep_view().take(i as int),
            decreases opt_ary@.len() - i,
        {
            let ghost pre = opts;
            let o = copy_opt(&opt_ary[i]);
            let ghost go = o;
            opts.push(o);
            proof {
                model::lemma_vec_deep_view_push(pre, opts, go);
                assert(opts.deep_view() =~= opt_ary.deep_view().take(i + 1));
            }
            i += 1;
        }
        let mut sho_idx: Vec<(u8, usize)> = Vec::new();
        let mut k: usize = 0;
        while k < sho_idx_ary.len()
            invariant
                k <= sho_idx_ary@.len(),
                sho_idx@ =~= sho_idx_ary@.take(k as int),
            decreases sho_idx_ary@.len() - k,
        {
            sho_idx.push(sho_idx_ary[k]);
            proof {
                assert(sho_idx@ =~= sho_idx_ary@.take(k + 1));
            }
            k += 1;
        }
        proof {
            assert(opts.deep_view() =~= opt_ary.deep_view());
            assert(sho_idx@ =~= sho_idx_ary@);
        }
        Lex { opts, sho_idx, subcmds: Vec::new(), config: LexConfig::default() }
    }

    /// Set up the subcommand universe.
    pub fn subcmd(self, subcmd_ary: &[&str]) -> (r: Self)
        ensures
            r@ == (LexV { subcmds: model::views_of_strs(subcmd_ary@), ..self@ }),
    {
        let mut subcmds: Vec<String> = Vec::new();
        let mut i: usize = 0;
        while i < subcmd_ary.len()
            invariant
                i <= subcmd_ary@.len(),
                subcmds.deep_view() =~= model::views_of_strs(subcmd_ary@).take(i as int),
            decreases subcmd_ary@.len() - i,
        {
            let ghost pre = subcmds;
            let s = subcmd_ary[i].to_owned();
            let ghost gs = s;
            subcmds.push(s);
            proof {
                model::lemma_vec_deep_view_push(pre, subcmds, gs);
                assert(subcmds.deep_view() =~= model::views_of_strs(subcmd_ary@).take(i + 1));
            }
            i += 1;
        }
        proof {
            assert(subcmds.deep_view() =~= model::views_of_strs(subcmd_ary@));
        }
        let mut r = self;
        r.subcmds = subcmds;
        r
    }

    /// Choose the scanning policy.
    pub fn with_config(self, config: LexConfig) -> (r: Self)
        ensures
            r@ == (LexV { config, ..self@ }),
    {
        let mut r = self;
        r.config = config;
        r
    }
}

impl Lex {
    /// Binary search for the first table entry whose long name is exactly
    /// `name`.
    fn find_long_exact(&self, name: &str) -> (r: Option<usize>)
        requires
            self.wf(),
        ensures
            (match r {
                Some(j) => model::find_exact(self@.opts, name@) == Some(j as int),
                None => model::find_exact(self@.opts, name@) is None,
            }),
    {
        let ghost opts = self@.opts;
        let n = self.opts.len();
        let mut lo: usize = 0;
        let mut hi: usize = n;
        while lo < hi
            invariant
                lo <= hi <= n,
                n == opts.len(),
                n == self.opts@.len(),
                opts == self@.opts,
                model::opts_sorted(opts),
                forall|k: int| 0 <= k < lo ==> strutil::str_lt((#[trigger] opts[k]).lon, name@),
                forall|k: int| hi <= k < n ==> strutil::str_lt(name@, (#[trigger] opts[k]).lon),
            decreases hi - lo,
        {
            let mid = lo + (hi - lo) / 2;
            let c = strutil::str_cmp(name, self.opts[mid].lon.as_str());
            proof {
                assert(self.opts.deep_view()[mid as int] == self.opts@[mid as int].deep_view());
            }
            if c == 0 {
                let mut idx = mid;
                loop
                    invariant
                        idx <= mid < n,
                        n == opts.len(),
                        n == self.opts@.len(),
                        opts == self@.opts,
                        model::opts_sorted(opts),
                        opts[idx as int].lon == name@,
                    ensures
                        idx < n,
                        opts[idx as int].lon == name@,
                        idx == 0 || opts[idx as int - 1].lon != name@,
                    decreases idx,
                {
                    if idx == 0 {
                        break;
                    }
                    proof {
                        assert(self.opts.deep_view()[idx - 1] == self.opts@[idx - 1].deep_view());
                    }
                    if !strutil::str_eq(self.opts[idx - 1].lon.as_str(), name) {
                        break;
                    }
                    idx -= 1;
                }
                proof {
                    assert forall|k: int| 0 <= k < idx implies opts[k].lon != name@ by {
                        if opts[k].lon == name@ {
                            model::lemma_opts_sorted_le(opts, k, idx - 1);
                            model::lemma_opts_sorted_le(opts, idx - 1, idx as int);
                            strutil::lemma_str_le_antisym(opts[idx - 1].lon, name@);
                        }
                    }
                    model::lemma_find_exact_from_props(opts, name@, 0);
                    match model::find_exact(opts, name@) {
                        Some(j) => {
                            assert(j == idx);
                        },
                        None => {
                            assert(opts[idx as int].lon == name@);
                            assert(false);
                        },
                    }
                }
                return Some(idx);
            } else if c < 0 {
                proof {
                    assert forall|k: int| mid <= k < n implies strutil::str_lt(
                        name@,
                        (#[trigger] opts[k]).lon,
                    ) by {
                        model::lemma_opts_sorted_le(opts, mid as int, k);
                        strutil::lemma_str_lt_le_trans(name@, opts[mid as int].lon, opts[k].lon);
                    }
                }
                hi = mid;
            } else {
                proof {
                    assert forall|k: int| 0 <= k <= mid implies strutil::str_lt(
                        (#[trigger] opts[k]).lon,
                        name@,
                    ) by {
                        model::lemma_opts_sorted_le(opts, k, mid as int);
                        strutil::lemma_str_le_lt_trans(opts[k].lon, opts[mid as int].lon, name@);
                    }
                }
                lo = mid + 1;
            }
        }
        proof {
            assert forall|k: int| 0 <= k < n implies opts[k].lon != name@ by {
                strutil::lemma_str_trichotomy(opts[k].lon, name@);
            }
            model::lemma_find_exact_from_props(opts, name@, 0);
        }
        None
    }

    /// Binary search for the short-index entry of the given character.
    fn find_short(&self, c: char) -> (r: Option<usize>)
        requires
            self.wf(),
        ensures
            (match r {
                Some(t) => model::find_sho(self@.sho_idx, c) == Some(t as int),
                None => model::find_sho(self@.sho_idx, c) is None,
            }),
    {
        let ghost sho = self@.sho_idx;
        let cu: u32 = c as u32;
        let n = self.sho_idx.len();
        let mut lo: usize = 0;
        let mut hi: usize = n;
        while lo < hi
            invariant
                lo <= hi <= n,
                n == sho.len(),
                n == self.sho_idx@.len(),
                sho == self@.sho_idx,
                cu == c as u32,
                forall|k: int| 1 <= k < sho.len() ==> (#[trigger] sho[k - 1]).0 < sho[k].0,
                forall|k: int| 0 <= k < lo ==> ((#[trigger] sho[k]).0 as u32) < cu,
                forall|k: int| hi <= k < n ==> ((#[trigger] sho[k]).0 as u32) > cu,
            decreases hi - lo,
        {
            let mid = lo + (hi - lo) / 2;
            let key: u8 = self.sho_idx[mid].0;
            if (key as u32) == cu {
                proof {
                    model::lemma_find_sho_from_props(sho, c, 0);
                    match model::find_sho(sho, c) {
                        Some(j) => {
                            if j < mid {
                                model::lemma_sho_sorted_lt(sho, j, mid as int);
                            }
                        },
                        None => {
                            assert(sho[mid as int].0 as u32 == c as u32);
                            assert(false);
                        },
                    }
                }
                return Some(mid);
            } else if (key as u32) < cu {
                proof {
                    assert forall|k: int| 0 <= k <= mid implies ((#[trigger] sho[k]).0 as u32)
                        < cu by {
                        if k < mid {
                            model::lemma_sho_sorted_lt(sho, k, mid as int);
                        }
                    }
                }
                lo = mid + 1;
            } else {
                proof {
                    assert forall|k: int| mid <= k < n implies ((#[trigger] sho[k]).0 as u32)
                        > cu by {
                        if mid < k {
                            model::lemma_sho_sorted_lt(sho, mid as int, k);
                        }
                    }
                }
                hi = mid;
            }
        }
        proof {
            model::lemma_find_sho_from_props(sho, c, 0);
        }
        None
    }

    /// Scan the whole table for long names abbreviated by `name`: one
    /// candidate resolves, none is invalid, several are ambiguous.
    fn find_abbreviate(&self, name: &str) -> (r: Result<Opt, OptParseError>)
        ensures
            (match r {
                Ok(o) => model::pmatches(self@.opts, name@).len() == 1 && o@ == model::pmatches(
                    self@.opts,
                    name@,
                )[0],
                Err(e) => (model::pmatches(self@.opts, name@).len() == 0 && e@ == err::err1(
                    OptParseErrorKind::InvalidOption,
                    name@,
                )) || (model::pmatches(self@.opts, name@).len() >= 2 && e@ == err::err2(
                    OptParseErrorKind::AmbiguousOption,
                    name@,
                    model::opt_hint(model::pmatches(self@.opts, name@)),
                )),
            }),
    {
        let ghost opts = self@.opts;
        let n = self.opts.len();
        let mut pm: Vec<Opt> = Vec::new();
        let mut hint = String::from_str("possibilities:");
        let mut i: usize = 0;
        proof {
            assert(opts.take(0int) =~= Seq::<OptV>::empty());
        }
        while i < n
            invariant
                i <= n,
                n == opts.len(),
                n == self.opts@.len(),
                opts == self@.opts,
                pm.deep_view() =~= model::pmatches(opts.take(i as int), name@),
                hint@ == model::opt_hint(model::pmatches(opts.take(i as int), name@)),
            decreases n - i,
        {
            proof {
                assert(opts.take(i + 1).drop_last() =~= opts.take(i as int));
                assert(opts.take(i + 1).last() == opts[i as int]);
                assert(self.opts.deep_view()[i as int] == self.opts@[i as int].deep_view());
            }
            if strutil::str_is_prefix(name, self.opts[i].lon.as_str()) {
                let o = copy_opt(&self.opts[i]);
                let ghost go = o;
                let ghost prepm = pm;
                let ghost prehint = hint@;
                pm.push(o);
                hint.append(" '--");
                hint.append(self.opts[i].lon.as_str());
                hint.append("'");
                proof {
                    model::lemma_vec_deep_view_push(prepm, pm, go);
                    let pm2 = model::pmatches(opts.take(i + 1), name@);
                    assert(pm2 == model::pmatches(opts.take(i as int), name@).push(
                        opts[i as int],
                    ));
                    assert(pm.deep_view() =~= pm2);
                    assert(pm2.drop_last() =~= model::pmatches(opts.take(i as int), name@));
                    assert(pm2.last() == opts[i as int]);
                    assert(hint@ =~= model::opt_hint(pm2));
                }
            } else {
                proof {
                    assert(pm.deep_view() =~= model::pmatches(opts.take(i + 1), name@));
                }
            }
            i += 1;
        }
        proof {
            assert(opts.take(n as int) =~= opts);
        }
        if pm.len() == 1 {
            proof {
                assert(pm.deep_view()[0] == pm@[0].deep_view());
            }
            Ok(copy_opt(&pm[0]))
        } else if pm.len() == 0 {
            Err(OptParseError::invalid_option(name))
        } else {
            Err(OptParseError::ambiguous_option(name, hint.as_str()))
        }
    }

    /// Resolve a long name (the exact table entry first, abbreviation as
    /// configured) and give back a copy of its descriptor, or the error.
    fn resolve_long_name(&self, name: &str) -> (r: Result<Opt, OptParseError>)
        requires
            self.wf(),
        ensures
            (match r {
                Ok(o) => model::resolve_long(self@.opts, self@.config.abbreviate, name@)
                    == Ok::<OptV, err::ErrV>(o@),
                Err(e) => model::resolve_long(self@.opts, self@.config.abbreviate, name@)
                    == Err::<OptV, err::ErrV>(e@),
            }),
    {
        match self.find_long_exact(name) {
            Some(j) => {
                proof {
                    model::lemma_find_exact_from_props(self@.opts, name@, 0);
                    assert(self.opts.deep_view()[j as int] == self.opts@[j as int].deep_view());
                }
                Ok(copy_opt(&self.opts[j]))
            },
            None => {
                if self.config.abbreviate {
                    self.find_abbreviate(name)
                } else {
                    Err(OptParseError::invalid_option(name))
                }
            },
        }
    }

    /// Parse one long-form token: the text after the dashes, split at the
    /// first `=`, resolved and given its value per the option's arity.
    /// The boolean says whether `next` was consumed as the value.
    fn parse_long_name(&self, tail: &str, next: Option<&str>) -> (r: (
        Result<NameVal, OptParseError>,
        bool,
    ))
        requires
            self.wf(),
        ensures
            ({
                let sp = model::parse_long(
                    self@.opts,
                    self@.config.abbreviate,
                    tail@,
                    model::view_opt_str(next),
                );
                r.1 == sp.1 && (match r.0 {
                    Ok(nv) => sp.0 is Ok && nv@ == sp.0->Ok_0,
                    Err(e) => sp.0 is Err && e@ == sp.0->Err_0,
                })
            }),
    {
        let tlen = tail.unicode_len();
        let eq_pos = strutil::find_char(tail, '=');
        let name: &str = match eq_pos {
            Some(k) => tail.substring_char(0, k),
            None => tail,
        };
        let inline_val: Option<&str> = match eq_pos {
            Some(k) => Some(tail.substring_char(k + 1, tlen)),
            None => None,
        };
        proof {
            assert(model::eq_split(tail@).0 == name@);
            assert(model::eq_split(tail@).1 == model::view_opt_str(inline_val));
        }
        let v_opt: Opt = match self.resolve_long_name(name) {
            Ok(o) => o,
            Err(e) => {
                return (Err(e), false);
            },
        };
        match v_opt.has {
            Arg::No => match inline_val {
                Some(v) => (Err(OptParseError::unexpected_option_argument(name, v)), false),
                None => (Ok(NameVal { opt: v_opt, val: None, was_long: true }), false),
            },
            Arg::Maybe => {
                let val: String = match inline_val {
                    Some(v) => v.to_owned(),
                    None => String::new(),
                };
                (Ok(NameVal { opt: v_opt, val: Some(val), was_long: true }), false)
            },
            Arg::Yes => match inline_val {
                Some(v) => (Ok(NameVal { opt: v_opt, val: Some(v.to_owned()), was_long: true }),
                false),
                None => match next {
                    Some(cur_val) => (
                        Ok(NameVal { opt: v_opt, val: Some(cur_val.to_owned()), was_long: true }),
                        true,
                    ),
                    None => (Err(OptParseError::missing_option_argument(name)), false),
                },
            },
        }
    }

    /// Parse one short-form token: the characters after the dash form a
    /// cluster, processed left to right.  The boolean says whether `next`
    /// was consumed as a value.
    fn parse_short_name(&self, tail: &str, next: Option<&str>) -> (r: (
        Vec<NameVal>,
        Vec<OptParseError>,
        bool,
    ))
        requires
            self.wf(),
        ensures
            ({
                let sp = model::cluster_scan(
                    self@.opts,
                    self@.sho_idx,
                    tail@,
                    0,
                    model::view_opt_str(next),
                    Seq::empty(),
                    Seq::empty(),
                );
                r.0.deep_view() == sp.0 && r.1.deep_view() == sp.1 && r.2 == sp.2
            }),
    {
        let ghost opts = self@.opts;
        let ghost sho = self@.sho_idx;
        let ghost nextv = model::view_opt_str(next);
        let ghost target = model::cluster_scan(
            opts,
            sho,
            tail@,
            0,
            nextv,
            Seq::empty(),
            Seq::empty(),
        );
        let tail_len = tail.unicode_len();
        let mut namevals: Vec<NameVal> = Vec::new();
        let mut errs: Vec<OptParseError> = Vec::new();
        let mut consumed = false;
        let mut stopped = false;
        let mut j: usize = 0;
        proof {
            assert(namevals.deep_view() =~= Seq::<NameValV>::empty());
            assert(errs.deep_view() =~= Seq::<err::ErrV>::empty());
        }
        while !stopped && j < tail_len
            invariant
                j <= tail_len,
                tail_len == tail@.len(),
                opts == self@.opts,
                sho == self@.sho_idx,
                nextv == model::view_opt_str(next),
                self.wf(),
                !stopped ==> !consumed && target == model::cluster_scan(
                    opts,
                    sho,
                    tail@,
                    j as int,
                    nextv,
                    namevals.deep_view(),
                    errs.deep_view(),
                ),
                stopped ==> target == (namevals.deep_view(), errs.deep_view(), consumed),
            decreases tail_len - j + (if stopped {
                0int
            } else {
                1int
            }),
        {
            let c = tail.get_char(j);
            let ghost pre_nvs = namevals;
            let ghost pre_errs = errs;
            match self.find_short(c) {
                None => {
                    let cs = strutil::char_to_string(c);
                    let e = OptParseError::invalid_option(cs.as_str());
                    let ghost ge = e;
                    errs.push(e);
                    proof {
                        model::lemma_vec_deep_view_push(pre_errs, errs, ge);
                        assert(errs.deep_view() =~= pre_errs.deep_view().push(
                            err::err1(OptParseErrorKind::InvalidOption, seq![tail@[j as int]]),
                        ));
                        assert(target == model::cluster_scan(
                            opts,
                            sho,
                            tail@,
                            j + 1,
                            nextv,
                            namevals.deep_view(),
                            errs.deep_view(),
                        ));
                    }
                    j += 1;
                },
                Some(t) => {
                    proof {
                        model::lemma_find_sho_from_props(sho, c, 0);
                    }
                    let ti = self.sho_idx[t].1;
                    proof {
                        assert(self.opts.deep_view()[ti as int] == self.opts@[
                            ti as int].deep_view());
                    }
                    let v_opt = copy_opt(&self.opts[ti]);
                    let ghost gopt = v_opt@;
                    if v_opt.has == Arg::No {
                        let nv = NameVal { opt: v_opt, val: None, was_long: false };
                        let ghost gnv = nv;
                        namevals.push(nv);
                        proof {
                            model::lemma_vec_deep_view_push(pre_nvs, namevals, gnv);
                            assert(namevals.deep_view() =~= pre_nvs.deep_view().push(
                                NameValV { opt: gopt, val: None, was_long: false },
                            ));
                            assert(target == model::cluster_scan(
                                opts,
                                sho,
                                tail@,
                                j + 1,
                                nextv,
                                namevals.deep_view(),
                                errs.deep_view(),
                            ));
                        }
                        j += 1;
                    } else if j < tail_len - 1 {
                        let rest = tail.substring_char(j + 1, tail_len);
                        let nv = NameVal { opt: v_opt, val: Some(rest.to_owned()), was_long: false };
                        let ghost gnv = nv;
                        namevals.push(nv);
                        stopped = true;
                        proof {
                            model::lemma_vec_deep_view_push(pre_nvs, namevals, gnv);
                            assert(tail@.subrange(j + 1, tail_len as int) =~= tail@.skip(j + 1));
                            assert(namevals.deep_view() =~= pre_nvs.deep_view().push(
                                NameValV {
                                    opt: gopt,
                                    val: Some(tail@.skip(j + 1)),
                                    was_long: false,
                                },
                            ));
                            assert(target == (namevals.deep_view(), errs.deep_view(), false));
                        }
                    } else if v_opt.has == Arg::Maybe {
                        let nv = NameVal { opt: v_opt, val: Some(String::new()), was_long: false };
                        let ghost gnv = nv;
                        namevals.push(nv);
                        stopped = true;
                        proof {
                            model::lemma_vec_deep_view_push(pre_nvs, namevals, gnv);
                            assert(namevals.deep_view() =~= pre_nvs.deep_view().push(
                                NameValV {
                                    opt: gopt,
                                    val: Some(Seq::empty()),
                                    was_long: false,
                                },
                            ));
                            assert(target == (namevals.deep_view(), errs.deep_view(), false));
                        }
                    } else {
                        match next {
                            Some(cur_val) => {
                                let nv = NameVal {
                                    opt: v_opt,
                                    val: Some(cur_val.to_owned()),
                                    was_long: false,
                                };
                                let ghost gnv = nv;
                                namevals.push(nv);
                                consumed = true;
                                stopped = true;
                                proof {
                                    model::lemma_vec_deep_view_push(pre_nvs, namevals, gnv);
                                    assert(namevals.deep_view() =~= pre_nvs.deep_view().push(
                                        NameValV {
                                            opt: gopt,
                                            val: Some(cur_val@),
                                            was_long: false,
                                        },
                                    ));
                                    assert(target == (
                                        namevals.deep_view(),
                                        errs.deep_view(),
                                        true,
                                    ));
                                }
                            },
                            None => {
                                let cs = strutil::char_to_string(c);
                                let e = OptParseError::missing_option_argument(cs.as_str());
                                let ghost ge = e;
                                errs.push(e);
                                stopped = true;
                                proof {
                                    model::lemma_vec_deep_view_push(pre_errs, errs, ge);
                                    assert(errs.deep_view() =~= pre_errs.deep_view().push(
                                        err::err1(
                                            OptParseErrorKind::MissingOptionArgument,
                                            seq![tail@[j as int]],
                                        ),
                                    ));
                                    assert(target == (
                                        namevals.deep_view(),
                                        errs.deep_view(),
                                        false,
                                    ));
                                }
                            },
                        }
                    }
                },
            }
        }
        proof {
            if !stopped {
                assert(target == (namevals.deep_view(), errs.deep_view(), false));
            }
        }
        (namevals, errs, consumed)
    }

    /// Parse one single-dash token in long-only mode: the text after the
    /// dash is tried first as a short cluster, and retried as a long name
    /// only when the cluster produced invalid-option errors alone, no
    /// occurrence and no consumption; a single-character token is always
    /// short-form and never retried.
    fn parse_long_only(&self, cur: &str, next: Option<&str>) -> (r: (
        Vec<NameVal>,
        Vec<OptParseError>,
        bool,
    ))
        requires
            self.wf(),
            cur@.len() >= 1,
        ensures
            ({
                let sp = model::long_only_step(self@, cur@, model::view_opt_str(next));
                r.0.deep_view() == sp.0 && r.1.deep_view() == sp.1 && r.2 == sp.2
            }),
    {
        let n = cur.unicode_len();
        let tail = cur.substring_char(1, n);
        proof {
            assert(tail@ =~= cur@.skip(1));
        }
        let (nvs, errs, consumed) = self.parse_short_name(tail, next);
        if n == 2 {
            return (nvs, errs, consumed);
        }
        let retry: bool = if nvs.len() == 0 && !consumed && errs.len() > 0 {
            let mut all_invalid = true;
            let mut k: usize = 0;
            while k < errs.len()
                invariant
                    k <= errs@.len(),
                    all_invalid == (forall|j: int|
                        0 <= j < k ==> (#[trigger] errs.deep_view()[j]).kind
                            == OptParseErrorKind::InvalidOption),
                decreases errs@.len() - k,
            {
                proof {
                    assert(errs.deep_view()[k as int] == errs@[k as int].deep_view());
                }
                if !(errs[k].kind() == OptParseErrorKind::InvalidOption) {
                    all_invalid = false;
                }
                k += 1;
            }
            all_invalid
        } else {
            false
        };
        proof {
            let cl = model::cluster_scan(
                self@.opts,
                self@.sho_idx,
                cur@.skip(1),
                0,
                model::view_opt_str(next),
                Seq::empty(),
                Seq::empty(),
            );
            assert(retry == model::cluster_retries_long(cl));
        }
        if !retry {
            return (nvs, errs, consumed);
        }
        let (res, long_consumed) = self.parse_long_name(tail, next);
        let (nvs2, errs2) = long_result_vecs(res);
        (nvs2, errs2, long_consumed)
    }

    /// Linear scan for the first subcommand candidate equal to `name`.
    fn find_match_subcmd(&self, name: &str) -> (r: Option<usize>)
        ensures
            (match r {
                Some(k) => model::find_exact_sub_from(self@.subcmds, name@, 0) == Some(k as int),
                None => model::find_exact_sub_from(self@.subcmds, name@, 0) is None,
            }),
    {
        let ghost ss = self@.subcmds;
        let n = self.subcmds.len();
        let mut k: usize = 0;
        while k < n
            invariant
                k <= n,
                n == ss.len(),
                n == self.subcmds@.len(),
                ss == self@.subcmds,
                model::find_exact_sub_from(ss, name@, 0) == model::find_exact_sub_from(
                    ss,
                    name@,
                    k as int,
                ),
            decreases n - k,
        {
            proof {
                assert(self.subcmds.deep_view()[k as int] == self.subcmds@[k as int].deep_view());
            }
            if strutil::str_eq(self.subcmds[k].as_str(), name) {
                return Some(k);
            }
            k += 1;
        }
        None
    }

    /// Scan the subcommand universe for candidates abbreviated by `name`:
    /// one candidate resolves, none is invalid, several are ambiguous.
    fn find_abbreviate_subcmd(&self, name: &str) -> (r: Result<String, OptParseError>)
        ensures
            (match r {
                Ok(s) => model::spmatches(self@.subcmds, name@).len() == 1 && s@ == model::spmatches(
                    self@.subcmds,
                    name@,
                )[0],
                Err(e) => (model::spmatches(self@.subcmds, name@).len() == 0 && e@ == err::err1(
                    OptParseErrorKind::InvalidSubcommand,
                    name@,
                )) || (model::spmatches(self@.subcmds, name@).len() >= 2 && e@ == err::err2(
                    OptParseErrorKind::AmbiguousSubcommand,
                    name@,
                    model::sub_hint(model::spmatches(self@.subcmds, name@)),
                )),
            }),
    {
        let ghost ss = self@.subcmds;
        let n = self.subcmds.len();
        let mut pm: Vec<String> = Vec::new();
        let mut hint = String::from_str("possibilities:");
        let mut i: usize = 0;
        proof {
            assert(ss.take(0int) =~= Seq::<Seq<char>>::empty());
        }
        while i < n
            invariant
                i <= n,
                n == ss.len(),
                n == self.subcmds@.len(),
                ss == self@.subcmds,
                pm.deep_view() =~= model::spmatches(ss.take(i as int), name@),
                hint@ == model::sub_hint(model::spmatches(ss.take(i as int), name@)),
            decreases n - i,
        {
            proof {
                assert(ss.take(i + 1).drop_last() =~= ss.take(i as int));
                assert(ss.take(i + 1).last() == ss[i as int]);
                assert(self.subcmds.deep_view()[i as int] == self.subcmds@[i as int].deep_view());
            }
            if strutil::str_is_prefix(name, self.subcmds[i].as_str()) {
                let s = self.subcmds[i].clone();
                let ghost gs = s;
                let ghost prepm = pm;
                pm.push(s);
                hint.append(" '");
                hint.append(self.subcmds[i].as_str());
                hint.append("'");
                proof {
                    model::lemma_vec_deep_view_push(prepm, pm, gs);
                    let pm2 = model::spmatches(ss.take(i + 1), name@);
                    assert(pm2 == model::spmatches(ss.take(i as int), name@).push(ss[i as int]));
                    assert(pm.deep_view() =~= pm2);
                    assert(pm2.drop_last() =~= model::spmatches(ss.take(i as int), name@));
                    assert(pm2.last() == ss[i as int]);
                    assert(hint@ =~= model::sub_hint(pm2));
                }
            } else {
                proof {
                    assert(pm.deep_view() =~= model::spmatches(ss.take(i + 1), name@));
                }
            }
            i += 1;
        }
        proof {
            assert(ss.take(n as int) =~= ss);
        }
        if pm.len() == 1 {
            proof {
                assert(pm.deep_view()[0] == pm@[0].deep_view());
            }
            Ok(pm[0].clone())
        } else if pm.len() == 0 {
            Err(OptParseError::invalid_subcommand(name))
        } else {
            Err(OptParseError::ambiguous_subcommand(name, hint.as_str()))
        }
    }

    /// Dispatch one option token (a dash-led token that is neither the
    /// terminator nor free text) to the long, long-only or cluster parser.
    fn parse_opt_token(&self, cur: &str, next: Option<&str>) -> (r: (
        Vec<NameVal>,
        Vec<OptParseError>,
        bool,
    ))
        requires
            self.wf(),
            cur@.len() >= 1,
        ensures
            ({
                let sp = model::token_step(self@, cur@, model::view_opt_str(next));
                r.0.deep_view() == sp.0 && r.1.deep_view() == sp.1 && r.2 == sp.2
            }),
    {
        let cur_len = cur.unicode_len();
        if !self.config.long_only && cur_len >= 2 {
            if cur.get_char(1) == '-' {
                let tail = cur.substring_char(2, cur_len);
                proof {
                    assert(tail@ =~= cur@.skip(2));
                }
                let (res, consumed) = self.parse_long_name(tail, next);
                let (nvs, errs) = long_result_vecs(res);
                return (nvs, errs, consumed);
            }
        }
        if self.config.long_only {
            self.parse_long_only(cur, next)
        } else {
            let tail = cur.substring_char(1, cur_len);
            proof {
                assert(tail@ =~= cur@.skip(1));
            }
            self.parse_short_name(tail, next)
        }
    }

    /// Analyze the raw arguments and return the tokens, or the errors.
    ///
    /// The result is exactly what the model's `tokens_result` says of this
    /// analyzer's tables, policy and the arguments' views: the tokens when
    /// nothing failed, else every error in scan order, with the subcommand
    /// error last, or the first error alone in single-error mode.
    pub fn tokens_from(&self, args: &[&str]) -> (r: Result<Tokens, OptParseErrors>)
        requires
            self.wf(),
        ensures
            (match model::tokens_result(self@, model::views_of_strs(args@)) {
                Ok(t) => (match r {
                    Ok(rt) => rt@ == t,
                    Err(_) => false,
                }),
                Err(es) => (match r {
                    Err(re) => re@ == es,
                    Ok(_) => false,
                }),
            }),
    {
        let ghost l = self@;
        let ghost av = model::views_of_strs(args@);
        let ghost scan0 = model::scan(l, av, 0, model::init_st());
        let n = args.len();
        let mut v_namevals: Vec<NameVal> = Vec::new();
        let mut v_free: Vec<String> = Vec::new();
        let mut v_errs: Vec<OptParseError> = Vec::new();
        let mut double_m = false;
        let mut stopped = false;
        let mut i: usize = 0;
        proof {
            assert(v_namevals.deep_view() =~= Seq::<NameValV>::empty());
            assert(v_free.deep_view() =~= Seq::<Seq<char>>::empty());
            assert(v_errs.deep_view() =~= Seq::<err::ErrV>::empty());
            assert(model::init_st() =~= (model::ScanSt {
                namevals: v_namevals.deep_view(),
                free: v_free.deep_view(),
                errs: v_errs.deep_view(),
                double_m: false,
            }));
        }
        while !stopped && i < n
            invariant
                i <= n,
                n == args@.len(),
                n == av.len(),
                l == self@,
                self.wf(),
                av == model::views_of_strs(args@),
                scan0 == model::scan(l, av, 0, model::init_st()),
                !stopped ==> scan0 == model::scan(
                    l,
                    av,
                    i as int,
                    (model::ScanSt {
                        namevals: v_namevals.deep_view(),
                        free: v_free.deep_view(),
                        errs: v_errs.deep_view(),
                        double_m,
                    }),
                ),
                stopped ==> scan0 == (model::ScanSt {
                    namevals: v_namevals.deep_view(),
                    free: v_free.deep_view(),
                    errs: v_errs.deep_view(),
                    double_m,
                }),
            decreases n - i + (if stopped {
                0int
            } else {
                1int
            }),
        {
            let ghost st_pre = model::ScanSt {
                namevals: v_namevals.deep_view(),
                free: v_free.deep_view(),
                errs: v_errs.deep_view(),
                double_m,
            };
            let cur: &str = args[i];
            proof {
                assert(av[i as int] == cur@);
            }
            let next: Option<&str> = if i + 1 < n {
                Some(args[i + 1])
            } else {
                None
            };
            let ghost nextv = model::view_opt_str(next);
            proof {
                if i + 1 < n {
                    assert(av[i + 1] == args@[i + 1]@);
                }
            }
            if self.config.stop_at_mm && strutil::is_double_dash(cur) {
                double_m = true;
                stopped = true;
                extend_free_with_rest(&mut v_free, args, i + 1);
                proof {
                    assert(model::scan(l, av, i as int, st_pre) == (model::ScanSt {
                        free: st_pre.free + av.skip(i + 1),
                        double_m: true,
                        ..st_pre
                    }));
                    assert(scan0 =~= (model::ScanSt {
                        namevals: v_namevals.deep_view(),
                        free: v_free.deep_view(),
                        errs: v_errs.deep_view(),
                        double_m: true,
                    }));
                }
            } else {
                let cur_len = cur.unicode_len();
                let starts_dash = cur_len >= 1 && cur.get_char(0) == '-';
                if !starts_dash {
                    let ghost prf = v_free;
                    let s = cur.to_owned();
                    let ghost gs = s;
                    v_free.push(s);
                    proof {
                        model::lemma_vec_deep_view_push(prf, v_free, gs);
                        assert(v_free.deep_view() =~= st_pre.free.push(cur@));
                    }
                    if self.config.stop_at_free {
                        stopped = true;
                        extend_free_with_rest(&mut v_free, args, i + 1);
                        proof {
                            assert(model::scan(l, av, i as int, st_pre) == (model::ScanSt {
                                free: st_pre.free.push(cur@) + av.skip(i + 1),
                                ..st_pre
                            }));
                            assert(scan0 =~= (model::ScanSt {
                                namevals: v_namevals.deep_view(),
                                free: v_free.deep_view(),
                                errs: v_errs.deep_view(),
                                double_m,
                            }));
                        }
                    } else {
                        proof {
                            assert(model::scan(l, av, i as int, st_pre) == model::scan(
                                l,
                                av,
                                i + 1,
                                (model::ScanSt { free: st_pre.free.push(cur@), ..st_pre }),
                            ));
                            assert((model::ScanSt {
                                namevals: v_namevals.deep_view(),
                                free: v_free.deep_view(),
                                errs: v_errs.deep_view(),
                                double_m,
                            }) =~= (model::ScanSt { free: st_pre.free.push(cur@), ..st_pre }));
                        }
                        i += 1;
                    }
                } else {
                    let (mut nvs_m, mut errs_m, consumed) = self.parse_opt_token(cur, next);
                    let ghost gnvs = nvs_m;
                    let ghost gerrs = errs_m;
                    let ghost pre_nv = v_namevals;
                    let ghost pre_er = v_errs;
                    v_namevals.append(&mut nvs_m);
                    v_errs.append(&mut errs_m);
                    let step: usize = if consumed && i + 1 < n {
                        2
                    } else {
                        1
                    };
                    proof {
                        model::lemma_vec_deep_view_add(pre_nv, v_namevals, gnvs);
                        model::lemma_vec_deep_view_add(pre_er, v_errs, gerrs);
                        let ts = model::token_step(l, cur@, nextv);
                        assert(model::scan(l, av, i as int, st_pre) == model::scan(
                            l,
                            av,
                            i + (step as int),
                            model::apply_cluster(st_pre, ts.0, ts.1),
                        ));
                        assert((model::ScanSt {
                            namevals: v_namevals.deep_view(),
                            free: v_free.deep_view(),
                            errs: v_errs.deep_view(),
                            double_m,
                        }) =~= model::apply_cluster(st_pre, ts.0, ts.1));
                    }
                    i += step;
                }
            }
        }
        let ghost st = model::ScanSt {
            namevals: v_namevals.deep_view(),
            free: v_free.deep_view(),
            errs: v_errs.deep_view(),
            double_m,
        };
        proof {
            assert(scan0 == st);
        }
        let mut v_subcmd: Option<String> = None;
        let ghost applies = model::subcmd_applies(l, st);
        let ghost resolved = model::resolve_subcmd(l.subcmds, l.config.abbreviate, st.free[0]);
        if self.subcmds.len() > 0 && !double_m {
            match self.parse_subcmd(&v_free) {
                Ok((opt_s, remove_1st)) => {
                    if remove_1st {
                        let ghost prf = v_free;
                        let _removed = v_free.remove(0);
                        v_subcmd = opt_s;
                        proof {
                            model::lemma_vec_deep_view_remove_first(prf, v_free);
                            assert(applies);
                            assert(resolved is Ok);
                            assert(v_free.deep_view() =~= st.free.skip(1));
                        }
                    } else {
                        proof {
                            assert(!applies);
                        }
                    }
                },
                Err(e) => {
                    let ghost pre = v_errs;
                    let ghost ge = e;
                    v_errs.push(e);
                    proof {
                        model::lemma_vec_deep_view_push(pre, v_errs, ge);
                        assert(applies);
                        assert(resolved is Err);
                    }
                },
            }
        } else {
            proof {
                assert(!applies);
            }
        }
        let ghost pair = model::scan_result(l, av);
        proof {
            assert(pair.0 =~= (model::TokensV {
                namevals: v_namevals.deep_view(),
                double_m,
                subcmd: match v_subcmd {
                    Some(ref s) => Some(s@),
                    None => None,
                },
                free: v_free.deep_view(),
            }));
            assert(pair.1 == v_errs.deep_view());
        }
        if v_errs.len() == 0 {
            Ok(Tokens { namevals: v_namevals, double_m, subcmd: v_subcmd, free: v_free })
        } else if self.config.single_error {
            proof {
                assert(v_errs.deep_view()[0] == v_errs@[0].deep_view());
            }
            let first = v_errs.remove(0);
            let mut es = OptParseErrors::new();
            es.push(first);
            proof {
                assert(es@ =~= seq![pair.1[0]]);
            }
            Err(es)
        } else {
            Err(OptParseErrors::from_vec(v_errs))
        }
    }

    /// Resolve the first free argument as a subcommand, when there is one
    /// worth resolving; on success the caller removes it from the free
    /// list, as the second component asks.
    fn parse_subcmd(&self, v_free: &Vec<String>) -> (r: Result<
        (Option<String>, bool),
        OptParseError,
    >)
        ensures
            ({
                let free = v_free.deep_view();
                if free.len() == 0 || free[0].len() == 0 || free[0] == model::double_dash() {
                    match r {
                        Ok((s, removed)) => s is None && removed == false,
                        Err(_) => false,
                    }
                } else {
                    match model::resolve_subcmd(
                        self@.subcmds,
                        self@.config.abbreviate,
                        free[0],
                    ) {
                        Ok(s) => (match r {
                            Ok((rs, removed)) => removed == true && (match rs {
                                Some(t) => t@ == s,
                                None => false,
                            }),
                            Err(_) => false,
                        }),
                        Err(e) => (match r {
                            Err(re) => re@ == e,
                            Ok(_) => false,
                        }),
                    }
                }
            }),
    {
        if v_free.len() == 0 {
            return Ok((None, false));
        }
        proof {
            assert(v_free.deep_view()[0int] == v_free@[0int].deep_view());
        }
        let free_1st = v_free[0].as_str();
        if free_1st.unicode_len() == 0 {
            return Ok((None, false));
        }
        if strutil::str_eq(free_1st, "--") {
            proof {
                reveal_strlit("--");
                assert("--"@ =~= model::double_dash());
            }
            return Ok((None, false));
        }
        proof {
            reveal_strlit("--");
            assert("--"@ =~= model::double_dash());
        }
        match self.find_match_subcmd(free_1st) {
            Some(k) => {
                proof {
                    model::lemma_find_exact_sub_from_props(self@.subcmds, free_1st@, 0);
                    assert(self.subcmds.deep_view()[k as int] == self.subcmds@[
                        k as int].deep_view());
                }
                Ok((Some(self.subcmds[k].clone()), true))
            },
            None => {
                if self.config.abbreviate {
                    match self.find_abbreviate_subcmd(free_1st) {
                        Ok(s) => Ok((Some(s), true)),
                        Err(e) => Err(e),
                    }
                } else {
                    Err(OptParseError::invalid_subcommand(free_1st))
                }
            },
        }
    }
}

/// The views of a sequence of occurrences.
pub open spec fn nvs_views(s: Seq<NameVal>) -> Seq<NameValV> {
    Seq::new(s.len(), |i: int| s[i]@)
}

/// The outputs of applying a dispatch function along a sequence of
/// occurrences: starting from `c0`, each occurrence is handed to `f`
/// together with the configuration so far; the error of each failing call
/// is collected in order, and `cn` is the configuration after the last
/// call.  True exactly of the output pairs that `f`'s own postcondition
/// admits.
pub open spec fn dispatch_chain<T, F: Fn(T, &NameVal) -> (T, Result<(), OptParseError>)>(
    f: F,
    c0: T,
    nvs: Seq<NameVal>,
    cn: T,
    errs: Seq<err::ErrV>,
) -> bool
    decreases nvs.len(),
{
    if nvs.len() == 0 {
        cn == c0 && errs.len() == 0
    } else {
        exists|c1: T, res: Result<(), OptParseError>|
            #[trigger] f.ensures((c0, &nvs[0]), (c1, res)) && (match res {
                Ok(_) => dispatch_chain(f, c1, nvs.skip(1), cn, errs),
                Err(e) => errs.len() > 0 && errs[0] == e@ && dispatch_chain(
                    f,
                    c1,
                    nvs.skip(1),
                    cn,
                    errs.skip(1),
                ),
            })
    }
}

/// A dispatch chain extends by one call at its end.
proof fn lemma_dispatch_chain_extend<T, F: Fn(T, &NameVal) -> (T, Result<(), OptParseError>)>(
    f: F,
    c0: T,
    nvs: Seq<NameVal>,
    cn: T,
    errs: Seq<err::ErrV>,
    nv: NameVal,
    c2: T,
    res: Result<(), OptParseError>,
)
    requires
        dispatch_chain(f, c0, nvs, cn, errs),
        f.ensures((cn, &nv), (c2, res)),
    ensures
        (match res {
            Ok(_) => dispatch_chain(f, c0, nvs.push(nv), c2, errs),
            Err(e) => dispatch_chain(f, c0, nvs.push(nv), c2, errs.push(e@)),
        }),
    decreases nvs.len(),
{
    let nvs2 = nvs.push(nv);
    if nvs.len() == 0 {
        assert(nvs2[0] == nv);
        assert(nvs2.skip(1) =~= Seq::<NameVal>::empty());
        match res {
            Ok(_) => {
                assert(dispatch_chain(f, c2, nvs2.skip(1), c2, errs));
                assert(f.ensures((c0, &nvs2[0]), (c2, res)));
                assert(dispatch_chain(f, c0, nvs2, c2, errs));
            },
            Err(e) => {
                let errs2 = errs.push(e@);
                assert(errs2[0] == e@);
                assert(errs2.skip(1) =~= Seq::<err::ErrV>::empty());
                assert(dispatch_chain(f, c2, nvs2.skip(1), c2, errs2.skip(1)));
                assert(f.ensures((c0, &nvs2[0]), (c2, res)));
                assert(dispatch_chain(f, c0, nvs2, c2, errs2));
            },
        }
    } else {
        let (c1, r0): (T, Result<(), OptParseError>) = choose|c1: T, r0: Result<
            (),
            OptParseError,
        >|
            #[trigger] f.ensures((c0, &nvs[0]), (c1, r0)) && (match r0 {
                Ok(_) => dispatch_chain(f, c1, nvs.skip(1), cn, errs),
                Err(e0) => errs.len() > 0 && errs[0] == e0@ && dispatch_chain(
                    f,
                    c1,
                    nvs.skip(1),
                    cn,
                    errs.skip(1),
                ),
            });
        assert(nvs2[0] == nvs[0]);
        assert(nvs2.skip(1) =~= nvs.skip(1).push(nv));
        match r0 {
            Ok(_) => {
                lemma_dispatch_chain_extend(f, c1, nvs.skip(1), cn, errs, nv, c2, res);
                match res {
                    Ok(_) => {
                        assert(dispatch_chain(f, c1, nvs2.skip(1), c2, errs));
                        assert(f.ensures((c0, &nvs2[0]), (c1, r0)));
                        assert(dispatch_chain(f, c0, nvs2, c2, errs));
                    },
                    Err(e) => {
                        assert(dispatch_chain(f, c1, nvs2.skip(1), c2, errs.push(e@)));
                        assert(f.ensures((c0, &nvs2[0]), (c1, r0)));
                        assert(dispatch_chain(f, c0, nvs2, c2, errs.push(e@)));
                    },
                }
            },
            Err(e0) => {
                lemma_dispatch_chain_extend(f, c1, nvs.skip(1), cn, errs.skip(1), nv, c2, res);
                match res {
                    Ok(_) => {
                        assert(dispatch_chain(f, c1, nvs2.skip(1), c2, errs.skip(1)));
                        assert(f.ensures((c0, &nvs2[0]), (c1, r0)));
                        assert(dispatch_chain(f, c0, nvs2, c2, errs));
                    },
                    Err(e) => {
                        let errs2 = errs.push(e@);
                        assert(errs2[0] == errs[0]);
                        assert(errs2.skip(1) =~= errs.skip(1).push(e@));
                        assert(dispatch_chain(f, c1, nvs2.skip(1), c2, errs.skip(1).push(e@)));
                        assert(f.ensures((c0, &nvs2[0]), (c1, r0)));
                        assert(dispatch_chain(f, c0, nvs2, c2, errs2));
                    },
                }
            },
        }
    }
}

/// The returned configuration and collected errors are consistent with
/// folding the dispatch function, in order, over a prefix of occurrences
/// carrying the given views.
pub open spec fn dispatched<T, F: Fn(T, &NameVal) -> (T, Result<(), OptParseError>)>(
    f: F,
    c0: T,
    occs: Seq<NameValV>,
    cn: T,
    errs: Seq<err::ErrV>,
) -> bool {
    exists|nvs: Seq<NameVal>, k: int|
        nvs_views(nvs) == occs && 0 <= k <= nvs.len() && #[trigger] dispatch_chain(
            f,
            c0,
            nvs.take(k),
            cn,
            errs,
        )
}

/// As `dispatched`, with the configuration after the fold left open: some
/// configuration reachable by folding the dispatch function collected
/// exactly these errors.
pub open spec fn dispatched_somewhere<T, F: Fn(T, &NameVal) -> (T, Result<(), OptParseError>)>(
    f: F,
    c0: T,
    occs: Seq<NameValV>,
    errs: Seq<err::ErrV>,
) -> bool {
    exists|cn: T| #[trigger] dispatched(f, c0, occs, cn, errs)
}

/// Parse simple gnu style.
///
/// Tokenizes `args` against the given tables under the default policy,
/// applies `parse_match` to each occurrence in order (stopping early once
/// the configuration reports a help or version request), and returns the
/// configuration, the free arguments, and the errors that `parse_match`
/// collected; a tokenizer failure is returned alone, with the
/// configuration unchanged and no free list.  On token success the
/// returned configuration and errors are the fold of `parse_match` over a
/// prefix of the occurrences, in order.
pub fn parse_simple_gnu_style<T, F>(
    conf: T,
    opt_ary: &[Opt],
    sho_idx_ary: &[(u8, usize)],
    args: &[&str],
    parse_match: F,
) -> (r: (T, Option<Vec<String>>, Result<(), OptParseErrors>)) where
    T: HelpVersion,
    F: Fn(T, &NameVal) -> (T, Result<(), OptParseError>),

    requires
        model::tables_wf(opt_ary.deep_view(), sho_idx_ary@),
        forall|c: T, nv: &NameVal| #[trigger] parse_match.requires((c, nv)),
    ensures
        ({
            let l = LexV {
                opts: opt_ary.deep_view(),
                sho_idx: sho_idx_ary@,
                subcmds: Seq::empty(),
                config: default_config(),
            };
            match model::tokens_result(l, model::views_of_strs(args@)) {
                Err(es) => r.0 == conf && r.1 is None && (match r.2 {
                    Err(re) => re@ == es,
                    Ok(_) => false,
                }),
                Ok(t) => (match r.1 {
                    Some(v) => v.deep_view() == t.free,
                    None => false,
                }) && (match r.2 {
                    Err(re) => dispatched(parse_match, conf, t.namevals, r.0, re@),
                    Ok(_) => false,
                }),
            }
        }),
{
    let ghost conf0 = conf;
    let lex = Lex::create_with(opt_ary, sho_idx_ary);
    proof {
        assert(lex@ =~= (LexV {
            opts: opt_ary.deep_view(),
            sho_idx: sho_idx_ary@,
            subcmds: Seq::empty(),
            config: default_config(),
        }));
    }
    let tokens = match lex.tokens_from(args) {
        Ok(t) => t,
        Err(errs) => {
            return (conf, None, Err(errs));
        },
    };
    let mut errs = OptParseErrors::new();
    let mut conf_now = conf;
    let n = tokens.namevals.len();
    let mut i: usize = 0;
    proof {
        assert(tokens.namevals@.take(0int) =~= Seq::<NameVal>::empty());
    }
    while i < n
        invariant
            i <= n,
            n == tokens.namevals@.len(),
            forall|c: T, nv: &NameVal| #[trigger] parse_match.requires((c, nv)),
            dispatch_chain(parse_match, conf0, tokens.namevals@.take(i as int), conf_now, errs@),
        decreases n - i,
    {
        let ghost pre_conf = conf_now;
        let ghost pre_errs = errs@;
        let (c2, res) = parse_match(conf_now, &tokens.namevals[i]);
        let ghost gres = res;
        conf_now = c2;
        proof {
            lemma_dispatch_chain_extend(
                parse_match,
                conf0,
                tokens.namevals@.take(i as int),
                pre_conf,
                pre_errs,
                tokens.namevals@[i as int],
                conf_now,
                gres,
            );
            assert(tokens.namevals@.take(i + 1) =~= tokens.namevals@.take(i as int).push(
                tokens.namevals@[i as int],
            ));
        }
        match res {
            Ok(_) => {},
            Err(e) => errs.push(e),
        }
        i += 1;
        if conf_now.is_help() || conf_now.is_version() {
            break ;
        }
    }
    proof {
        let gnvs = tokens.namevals@;
        assert(nvs_views(gnvs) =~= tokens.namevals.deep_view());
        assert(dispatch_chain(parse_match, conf0, gnvs.take(i as int), conf_now, errs@));
        assert(dispatched(parse_match, conf0, tokens.namevals.deep_view(), conf_now, errs@));
    }
    (conf_now, Some(tokens.free), Err(errs))
}

/// Parse simple gnu style, with a subcommand.
///
/// As `parse_simple_gnu_style`, against the given subcommand universe: the
/// resolved subcommand is handed to the configuration, and its absence is
/// reported last, as a missing-subcommand error behind the dispatch
/// errors.
pub fn parse_simple_gnu_style_subcmd<T, F>(
    conf: T,
    opt_ary: &[Opt],
    sho_idx_ary: &[(u8, usize)],
    args: &[&str],
    parse_match: F,
    subcmds: &[&str],
) -> (r: (T, Option<Vec<String>>, Result<(), OptParseErrors>)) where
    T: HelpVersion + SubCommand,
    F: Fn(T, &NameVal) -> (T, Result<(), OptParseError>),

    requires
        model::tables_wf(opt_ary.deep_view(), sho_idx_ary@),
        forall|c: T, nv: &NameVal| #[trigger] parse_match.requires((c, nv)),
    ensures
        ({
            let l = LexV {
                opts: opt_ary.deep_view(),
                sho_idx: sho_idx_ary@,
                subcmds: model::views_of_strs(subcmds@),
                config: default_config(),
            };
            match model::tokens_result(l, model::views_of_strs(args@)) {
                Err(es) => r.0 == conf && r.1 is None && (match r.2 {
                    Err(re) => re@ == es,
                    Ok(_) => false,
                }),
                Ok(t) => (match r.1 {
                    Some(v) => v.deep_view() == t.free,
                    None => false,
                }) && (match r.2 {
                    Err(re) => {
                        &&& (t.subcmd is None ==> re@.len() >= 1 && re@.last() == err::err1(
                            OptParseErrorKind::MissingSubcommand,
                            "<command>"@,
                        ) && dispatched(parse_match, conf, t.namevals, r.0, re@.drop_last()))
                        &&& (t.subcmd is Some ==> dispatched_somewhere(
                            parse_match,
                            conf,
                            t.namevals,
                            re@,
                        ))
                    },
                    Ok(_) => false,
                }),
            }
        }),
{
    let ghost conf0 = conf;
    let lex = Lex::create_with(opt_ary, sho_idx_ary).subcmd(subcmds);
    proof {
        assert(lex@ =~= (LexV {
            opts: opt_ary.deep_view(),
            sho_idx: sho_idx_ary@,
            subcmds: model::views_of_strs(subcmds@),
            config: default_config(),
        }));
    }
    let tokens = match lex.tokens_from(args) {
        Ok(t) => t,
        Err(errs) => {
            return (conf, None, Err(errs));
        },
    };
    let mut errs = OptParseErrors::new();
    let mut conf_now = conf;
    let n = tokens.namevals.len();
    let mut i: usize = 0;
    proof {
        assert(tokens.namevals@.take(0int) =~= Seq::<NameVal>::empty());
    }
    while i < n
        invariant
            i <= n,
            n == tokens.namevals@.len(),
            forall|c: T, nv: &NameVal| #[trigger] parse_match.requires((c, nv)),
            dispatch_chain(parse_match, conf0, tokens.namevals@.take(i as int), conf_now, errs@),
        decreases n - i,
    {
        let ghost pre_conf = conf_now;
        let ghost pre_errs = errs@;
        let (c2, res) = parse_match(conf_now, &tokens.namevals[i]);
        let ghost gres = res;
        conf_now = c2;
        proof {
            lemma_dispatch_chain_extend(
                parse_match,
                conf0,
                tokens.namevals@.take(i as int),
                pre_conf,
                pre_errs,
                tokens.namevals@[i as int],
                conf_now,
                gres,
            );
            assert(tokens.namevals@.take(i + 1) =~= tokens.namevals@.take(i as int).push(
                tokens.namevals@[i as int],
            ));
        }
        match res {
            Ok(_) => {},
            Err(e) => errs.push(e),
        }
        i += 1;
        if conf_now.is_help() || conf_now.is_version() {
            break ;
        }
    }
    proof {
        let gnvs = tokens.namevals@;
        assert(nvs_views(gnvs) =~= tokens.namevals.deep_view());
        assert(dispatch_chain(parse_match, conf0, gnvs.take(i as int), conf_now, errs@));
        assert(dispatched(parse_match, conf0, tokens.namevals.deep_view(), conf_now, errs@));
    }
    let ghost chain_errs = errs@;
    let ghost cmid = conf_now;
    let ghost sub_pre = tokens.subcmd;
    match tokens.subcmd {
        Some(s) => conf_now.set_subcmd(s),
        None => errs.push(OptParseError::missing_subcommand("<command>")),
    }
    proof {
        if sub_pre is None {
            assert(errs@.drop_last() =~= chain_errs);
            assert(dispatched(
                parse_match,
                conf0,
                tokens.namevals.deep_view(),
                conf_now,
                errs@.drop_last(),
            ));
        } else {
            assert(dispatched(parse_match, conf0, tokens.namevals.deep_view(), cmid, errs@));
            assert(dispatched_somewhere(parse_match, conf0, tokens.namevals.deep_view(), errs@));
        }
    }
    (conf_now, Some(tokens.free), Err(errs))
}

/// Push the views of `args[from..]` onto the free list.
fn extend_free_with_rest(v_free: &mut Vec<String>, args: &[&str], from: usize)
    requires
        from <= args@.len(),
    ensures
        final(v_free).deep_view() == old(v_free).deep_view() + model::views_of_strs(
            args@,
        ).skip(from as int),
{
    let ghost av = model::views_of_strs(args@);
    let ghost base = v_free.deep_view();
    let n = args.len();
    let mut k = from;
    while k < n
        invariant
            from <= k <= n,
            n == args@.len(),
            n == av.len(),
            av == model::views_of_strs(args@),
            v_free.deep_view() =~= base + av.subrange(from as int, k as int),
        decreases n - k,
    {
        let ghost pre = *v_free;
        let s = args[k].to_owned();
        let ghost gs = s;
        v_free.push(s);
        proof {
            model::lemma_vec_deep_view_push(pre, *v_free, gs);
            assert(av[k as int] == args@[k as int]@);
            assert(v_free.deep_view() =~= base + av.subrange(from as int, k + 1));
        }
        k += 1;
    }
    proof {
        assert(av.subrange(from as int, n as int) =~= av.skip(from as int));
        assert(v_free.deep_view() =~= base + av.skip(from as int));
    }
}

/// A long-parse outcome as vectors: the occurrence or the error it
/// contributes.
fn long_result_vecs(res: Result<NameVal, OptParseError>) -> (r: (Vec<NameVal>, Vec<OptParseError>))
    ensures
        r.0.deep_view() == (match res {
            Ok(nv) => seq![nv@],
            Err(_) => Seq::<NameValV>::empty(),
        }),
        r.1.deep_view() == (match res {
            Ok(_) => Seq::<err::ErrV>::empty(),
            Err(e) => seq![e@],
        }),
{
    let mut nvs: Vec<NameVal> = Vec::new();
    let mut errs: Vec<OptParseError> = Vec::new();
    proof {
        assert(nvs.deep_view() =~= Seq::<NameValV>::empty());
        assert(errs.deep_view() =~= Seq::<err::ErrV>::empty());
    }
    match res {
        Ok(nv) => {
            let ghost pre = nvs;
            let ghost gnv = nv;
            nvs.push(nv);
            proof {
                model::lemma_vec_deep_view_push(pre, nvs, gnv);
                assert(nvs.deep_view() =~= seq![gnv@]);
            }
        },
        Err(e) => {
            let ghost pre = errs;
            let ghost ge = e;
            errs.push(e);
            proof {
                model::lemma_vec_deep_view_push(pre, errs, ge);
                assert(errs.deep_view() =~= seq![ge@]);
            }
        },
    }
    (nvs, errs)
}

} // verus!
