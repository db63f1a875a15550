//! Parse-table checking utilities for build and test time.
//!
//! The tokenizer's contracts ask the caller for sorted tables; these
//! functions decide, for any pair of tables, whether that obligation holds.
//! Each one's contract is an exact equivalence: it returns `true` for
//! well-formed tables, and any broken sort order, duplicate entry or
//! mismatched index makes it return `false`.

use vstd::prelude::*;

use crate::model::OptV;
use crate::strutil;
use crate::strutil::{str_le, str_lt};
use crate::Opt;

verus! {

/// The order that an option table is checked against: ascending by long
/// name, ties broken by short name, then by number.
pub open spec fn opt_key_le(a: OptV, b: OptV) -> bool {
    str_lt(a.lon, b.lon) || (a.lon == b.lon && (a.sho < b.sho || (a.sho == b.sho && a.num
        <= b.num)))
}

/// An option table in the non-strict key order: what sorting it would not
/// change.
pub open spec fn opt_ary_sorted(opts: Seq<OptV>) -> bool {
    forall|i: int| 1 <= i < opts.len() ==> opt_key_le(#[trigger] opts[i - 1], opts[i])
}

/// A short index in non-strict lexicographic order of (key, index).
pub open spec fn sho_idx_ary_sorted(sho_idx: Seq<(u8, usize)>) -> bool {
    forall|i: int|
        1 <= i < sho_idx.len() ==> ((#[trigger] sho_idx[i - 1]).0 < sho_idx[i].0 || (sho_idx[i
            - 1].0 == sho_idx[i].0 && sho_idx[i - 1].1 <= sho_idx[i].1))
}

/// What the combined check accepts of the long names: non-descending, and
/// equal neighbours only where the name is empty.
pub open spec fn opt_ary_long_names_ok(opts: Seq<OptV>) -> bool {
    forall|i: int|
        1 <= i < opts.len() ==> (str_le(#[trigger] opts[i - 1].lon, opts[i].lon) && !(opts[i
            - 1].lon.len() > 0 && opts[i - 1].lon == opts[i].lon))
}

/// What the combined check accepts of the short index: every entry points
/// into the table at its own short name, and a non-zero key never repeats
/// or descends.
pub open spec fn sho_idx_ary_consistent(opts: Seq<OptV>, sho_idx: Seq<(u8, usize)>) -> bool {
    &&& forall|k: int|
        0 <= k < sho_idx.len() ==> (#[trigger] sho_idx[k]).1 < opts.len() && opts[sho_idx[k].1
            as int].sho == sho_idx[k].0
    &&& forall|k: int|
        1 <= k < sho_idx.len() ==> !((#[trigger] sho_idx[k - 1]).0 > 0 && sho_idx[k - 1].0
            >= sho_idx[k].0)
}

/// Tables that meet the tokenizer's invariant always pass the combined
/// check: for any sorted, duplicate-free table and short index with
/// consistent entries, `check_sorted_opt_ary_and_sho_idx_ary_with` returns
/// `true` (its contract is an equivalence, so any broken order, duplicate
/// or mismatched index returns `false`).
pub proof fn lemma_wf_tables_pass_check(opts: Seq<OptV>, sho_idx: Seq<(u8, usize)>)
    requires
        crate::model::tables_wf(opts, sho_idx),
    ensures
        opt_ary_long_names_ok(opts),
        sho_idx_ary_consistent(opts, sho_idx),
{
    assert forall|i: int|
        1 <= i < opts.len() implies (str_le(#[trigger] opts[i - 1].lon, opts[i].lon) && !(opts[i
        - 1].lon.len() > 0 && opts[i - 1].lon == opts[i].lon)) by {
        strutil::lemma_str_trichotomy(opts[i - 1].lon, opts[i].lon);
    }
}

/// Tables that pass the combined check, with no zero key in the short
/// index, meet the tokenizer's invariant.
pub proof fn lemma_check_passes_wf(opts: Seq<OptV>, sho_idx: Seq<(u8, usize)>)
    requires
        opt_ary_long_names_ok(opts),
        sho_idx_ary_consistent(opts, sho_idx),
        forall|k: int| 0 <= k < sho_idx.len() ==> (#[trigger] sho_idx[k]).0 > 0,
    ensures
        crate::model::tables_wf(opts, sho_idx),
{
}

/// Check that an option table alone is sorted.
pub fn check_sorted_opt_ary_with(opt_ary: &[Opt]) -> (r: bool)
    ensures
        r == opt_ary_sorted(opt_ary.deep_view()),
{
    let n = opt_ary.len();
    let mut i: usize = 1;
    while i < n
        invariant
            1 <= i,
            n == opt_ary.deep_view().len(),
            n == opt_ary@.len(),
            forall|k: int|
                1 <= k < i ==> opt_key_le(
                    #[trigger] opt_ary.deep_view()[k - 1],
                    opt_ary.deep_view()[k],
                ),
        decreases n - i,
    {
        let a = &opt_ary[i - 1];
        let b = &opt_ary[i];
        let c = strutil::str_cmp(a.lon.as_str(), b.lon.as_str());
        let pair_ok: bool = if c < 0 {
            true
        } else if c > 0 {
            false
        } else if a.sho != b.sho {
            a.sho < b.sho
        } else {
            a.num <= b.num
        };
        if !pair_ok {
            assert(!opt_key_le(opt_ary.deep_view()[i - 1], opt_ary.deep_view()[i as int]));
            return false;
        }
        assert(opt_key_le(opt_ary.deep_view()[i - 1], opt_ary.deep_view()[i as int]));
        i += 1;
    }
    true
}

/// Check that a short index alone is sorted.
pub fn check_sorted_sho_idx_ary_with(sho_idx_ary: &[(u8, usize)]) -> (r: bool)
    ensures
        r == sho_idx_ary_sorted(sho_idx_ary@),
{
    let n = sho_idx_ary.len();
    let mut i: usize = 1;
    while i < n
        invariant
            1 <= i,
            n == sho_idx_ary@.len(),
            forall|k: int|
                1 <= k < i ==> ((#[trigger] sho_idx_ary@[k - 1]).0 < sho_idx_ary@[k].0 || (
                sho_idx_ary@[k - 1].0 == sho_idx_ary@[k].0 && sho_idx_ary@[k - 1].1
                    <= sho_idx_ary@[k].1)),
        decreases n - i,
    {
        let a = sho_idx_ary[i - 1];
        let b = sho_idx_ary[i];
        let pair_ok: bool = a.0 < b.0 || (a.0 == b.0 && a.1 <= b.1);
        if !pair_ok {
            return false;
        }
        i += 1;
    }
    true
}

/// Check an option table and its short index together.
///
/// - `opt_ary` must be sorted by long name, with no duplicate non-empty
///   long name;
/// - `sho_idx_ary` must be sorted by short key, each entry pointing at a
///   table record that carries its key.
///
/// Returns `true` exactly when both hold; any violation, a mismatched or
/// out-of-range index included, returns `false`.
pub fn check_sorted_opt_ary_and_sho_idx_ary_with(opt_ary: &[Opt], sho_idx_ary: &[(u8, usize)]) -> (r:
    bool)
    ensures
        r == (opt_ary_long_names_ok(opt_ary.deep_view()) && sho_idx_ary_consistent(
            opt_ary.deep_view(),
            sho_idx_ary@,
        )),
{
    let optn = opt_ary.len();
    let n = sho_idx_ary.len();
    let mut k: usize = 0;
    while k < n
        invariant
            k <= n,
            n == sho_idx_ary@.len(),
            optn == opt_ary@.len(),
            optn == opt_ary.deep_view().len(),
            forall|j: int|
                0 <= j < k ==> (#[trigger] sho_idx_ary@[j]).1 < optn && opt_ary.deep_view()[
                sho_idx_ary@[j].1 as int].sho == sho_idx_ary@[j].0,
            forall|j: int|
                1 <= j < k ==> !((#[trigger] sho_idx_ary@[j - 1]).0 > 0 && sho_idx_ary@[j - 1].0
                    >= sho_idx_ary@[j].0),
        decreases n - k,
    {
        let sho = sho_idx_ary[k];
        if sho.1 >= optn {
            return false;
        }
        if opt_ary[sho.1].sho != sho.0 {
            assert(opt_ary.deep_view()[sho_idx_ary@[k as int].1 as int].sho != sho_idx_ary@[
                k as int].0);
            return false;
        }
        if k > 0 {
            let prev = sho_idx_ary[k - 1];
            if prev.0 > 0 && prev.0 >= sho.0 {
                return false;
            }
        }
        assert(opt_ary.deep_view()[sho_idx_ary@[k as int].1 as int].sho == sho_idx_ary@[
            k as int].0);
        k += 1;
    }
    let mut i: usize = 1;
    while i < optn
        invariant
            1 <= i,
            optn == opt_ary@.len(),
            optn == opt_ary.deep_view().len(),
            sho_idx_ary_consistent(opt_ary.deep_view(), sho_idx_ary@),
            forall|j: int|
                1 <= j < i ==> (str_le(#[trigger] opt_ary.deep_view()[j - 1].lon,
                opt_ary.deep_view()[j].lon) && !(opt_ary.deep_view()[j - 1].lon.len() > 0
                    && opt_ary.deep_view()[j - 1].lon == opt_ary.deep_view()[j].lon)),
        decreases optn - i,
    {
        let a = &opt_ary[i - 1];
        let b = &opt_ary[i];
        let c = strutil::str_cmp(a.lon.as_str(), b.lon.as_str());
        if c > 0 {
            assert(!str_le(opt_ary.deep_view()[i - 1].lon, opt_ary.deep_view()[i as int].lon))
                by {
                strutil::lemma_str_trichotomy(
                    opt_ary.deep_view()[i - 1].lon,
                    opt_ary.deep_view()[i as int].lon,
                );
            }
            return false;
        }
        if c == 0 && !a.lon.as_str().is_empty() {
            assert(opt_ary.deep_view()[i - 1].lon.len() > 0 && opt_ary.deep_view()[i - 1].lon
                == opt_ary.deep_view()[i as int].lon);
            return false;
        }
        assert(str_le(opt_ary.deep_view()[i - 1].lon, opt_ary.deep_view()[i as int].lon));
        i += 1;
    }
    true
}

} // verus!
