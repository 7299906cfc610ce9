//! The prefix/glob filter and the prepend/append decorator.
//!
//! Candidates surviving the filter are decorated with a prepend and an
//! append string; the caller prints them.  A candidate survives when it
//! starts with the configured input prefix and, if a glob pattern is
//! configured, when its matching the pattern agrees with the configured
//! polarity (`keep_filter`).

use vstd::prelude::*;
use vstd::string::StrSliceExecFns;
use vstd::string::StringExecFns;
use crate::strutil::str_starts_with;

verus! {

/// Whether the glob crate accepts `pat` as a well-formed pattern.
pub uninterp spec fn glob_valid(pat: Seq<char>) -> bool;

/// Whether `s` matches the glob pattern `pat`; a function of the two
/// strings alone.
pub uninterp spec fn glob_matches(pat: Seq<char>, s: Seq<char>) -> bool;

/// Relies on glob::Pattern::new: it returns Ok exactly on the pattern
/// texts that the glob language accepts.
#[verifier::external_body]
fn glob_pattern_valid(pat: &str) -> (r: bool)
    ensures
        r == glob_valid(pat@),
{
    glob::Pattern::new(pat).is_ok()
}

/// Relies on glob::Pattern::matches (after glob::Pattern::new on a text
/// that was already checked to be well-formed): whether `s` matches the
/// pattern, a function of the pattern text and of `s` alone.
#[verifier::external_body]
fn glob_pattern_matches(pat: &str, s: &str) -> (r: bool)
    requires
        glob_valid(pat@),
    ensures
        r == glob_matches(pat@, s@),
{
    match glob::Pattern::new(pat) {
        Ok(p) => p.matches(s),
        Err(_) => false,
    }
}

/// The filter and decoration settings of one completion run.
pub struct FilterParams {
    /// Validated glob pattern text, if a glob filter is configured.
    pub filter: Option<String>,
    /// Polarity: `true` keeps the candidates that match the glob,
    /// `false` keeps the candidates that do not match it.
    pub keep_filter: bool,
    /// The partial word being completed; only candidates starting with it
    /// survive.
    pub input: String,
    /// Text put before every surviving candidate.
    pub prepend: String,
    /// Text put after every surviving candidate.
    pub append: String,
}

impl FilterParams {
    /// A configured glob pattern is always one the glob crate accepts.
    pub open spec fn wf(self) -> bool {
        match self.filter {
            Some(f) => glob_valid(f@),
            None => true,
        }
    }
}

/// Whether a candidate survives the filter.
pub open spec fn keeps(p: FilterParams, entry: Seq<char>) -> bool {
    &&& p.input@.is_prefix_of(entry)
    &&& match p.filter {
        Some(f) => glob_matches(f@, entry) == p.keep_filter,
        None => true,
    }
}

/// The subsequence of `cs` surviving the filter, in order.
pub open spec fn filtered(p: FilterParams, cs: Seq<Seq<char>>) -> Seq<Seq<char>> {
    cs.filter(|e: Seq<char>| keeps(p, e))
}

/// A candidate after decoration.
pub open spec fn decorated(p: FilterParams, entry: Seq<char>) -> Seq<char> {
    p.prepend@ + entry + p.append@
}

/// Whether a candidate survives the filter.
pub fn passes_filter(params: &FilterParams, entry: &str) -> (r: bool)
    requires
        params.wf(),
    ensures
        r == keeps(*params, entry@),
{
    if !str_starts_with(entry, params.input.as_str()) {
        return false;
    }
    match &params.filter {
        None => true,
        Some(f) => {
            let m = glob_pattern_matches(f.as_str(), entry);
            m == params.keep_filter
        },
    }
}

/// `prepend + entry + append`.
pub fn decorate(params: &FilterParams, entry: &str) -> (r: String)
    ensures
        r@ == decorated(*params, entry@),
{
    let mut out = params.prepend.clone();
    out.append(entry);
    out.append(params.append.as_str());
    out
}

/// Narrows `completions` to the candidates surviving the filter and
/// decorates each survivor, keeping the input order.
pub fn filter_and_display(completions: &Vec<String>, params: &FilterParams) -> (r: Vec<String>)
    requires
        params.wf(),
    ensures
        r.deep_view() == filtered(*params, completions.deep_view()).map_values(
            |e: Seq<char>| decorated(*params, e),
        ),
{
    let ghost cv = completions.deep_view();
    let ghost dec = |e: Seq<char>| decorated(*params, e);
    let mut out: Vec<String> = Vec::new();
    let mut i: usize = 0;
    while i < completions.len()
        invariant
            params.wf(),
            cv == completions.deep_view(),
            dec == (|e: Seq<char>| decorated(*params, e)),
            i <= completions.len(),
            cv.len() == completions.len(),
            out.deep_view() == filtered(*params, cv.take(i as int)).map_values(dec),
        decreases completions.len() - i,
    {
        let ghost pred = |e: Seq<char>| keeps(*params, e);
        let ghost x = cv[i as int];
        let ghost prefix = cv.take(i as int);
        let ghost out0 = out.deep_view();
        let entry = &completions[i];
        proof {
            assert(entry@ == x);
            let one = seq![x];
            assert(cv.take(i + 1) =~= prefix + one);
            Seq::filter_distributes_over_add(prefix, one, pred);
            reveal(Seq::filter);
            assert(one.drop_last() =~= Seq::<Seq<char>>::empty());
            assert(one.last() == x);
            assert(Seq::<Seq<char>>::empty().filter(pred) =~= Seq::<Seq<char>>::empty());
            if pred(x) {
                assert(one.filter(pred) =~= seq![x]);
                assert(filtered(*params, cv.take(i + 1)) =~= filtered(*params, prefix).push(x));
            } else {
                assert(one.filter(pred) =~= Seq::<Seq<char>>::empty());
                assert(filtered(*params, cv.take(i + 1)) =~= filtered(*params, prefix));
            }
        }
        if passes_filter(params, entry.as_str()) {
            let d = decorate(params, entry.as_str());
            proof {
                assert(d@ == dec(x));
            }
            out.push(d);
            proof {
                assert(out.deep_view() =~= out0.push(dec(x)));
                assert(filtered(*params, prefix).push(x).map_values(dec) =~= filtered(
                    *params,
                    prefix,
                ).map_values(dec).push(dec(x)));
            }
        }
        i += 1;
    }
    proof {
        assert(cv.take(cv.len() as int) =~= cv);
    }
    out
}

/// Builds the filter settings from the raw command arguments.
///
/// A leading `!` on the glob text flips the polarity from its exclude
/// default to "keep matches" and is stripped before validation.  Returns
/// `None` exactly when the (stripped) glob text is rejected by the glob
/// crate: a fatal usage error for the caller to report.
pub fn build_filter_params(
    filter_arg: Option<&str>,
    input: &str,
    prepend: &str,
    append: &str,
) -> (r: Option<FilterParams>)
    ensures
        match filter_arg {
            None => (match r {
                Some(p) => {
                    &&& p.filter is None
                    &&& p.keep_filter == false
                    &&& p.input@ == input@
                    &&& p.prepend@ == prepend@
                    &&& p.append@ == append@
                },
                None => false,
            }),
            Some(a) => {
                let neg = a@.len() > 0 && a@[0] == '!';
                let pat = if neg {
                    a@.drop_first()
                } else {
                    a@
                };
                match r {
                    Some(p) => {
                        &&& glob_valid(pat)
                        &&& p.filter matches Some(f) && f@ == pat
                        &&& p.keep_filter == neg
                        &&& p.input@ == input@
                        &&& p.prepend@ == prepend@
                        &&& p.append@ == append@
                    },
                    None => !glob_valid(pat),
                }
            },
        },
        r matches Some(p) ==> p.wf(),
{
    let base = FilterParams {
        filter: None,
        keep_filter: false,
        input: String::from_str(input),
        prepend: String::from_str(prepend),
        append: String::from_str(append),
    };
    match filter_arg {
        None => Some(base),
        Some(a) => {
            let alen = a.unicode_len();
            let negated = alen > 0 && a.get_char(0) == '!';
            let pat = if negated {
                a.substring_char(1, alen)
            } else {
                a
            };
            proof {
                if negated {
                    assert(pat@ =~= a@.drop_first());
                }
            }
            if glob_pattern_valid(pat) {
                Some(
                    FilterParams {
                        filter: Some(String::from_str(pat)),
                        keep_filter: negated,
                        ..base
                    },
                )
            } else {
                None
            }
        },
    }
}

/// One whole filtering run from the raw arguments: builds the filter
/// settings, then narrows and decorates `completions`.  Returns `None`
/// exactly when the supplied glob text is malformed, before producing any
/// candidate output.
pub fn complete(
    filter_arg: Option<&str>,
    input: &str,
    prepend: &str,
    append: &str,
    completions: &Vec<String>,
) -> (r: Option<Vec<String>>)
    ensures
        match r {
            Some(out) => exists|p: FilterParams|
                {
                    &&& #[trigger] p.wf()
                    &&& p.input@ == input@
                    &&& p.prepend@ == prepend@
                    &&& p.append@ == append@
                    &&& match filter_arg {
                        None => p.filter is None && p.keep_filter == false,
                        Some(a) => {
                            let neg = a@.len() > 0 && a@[0] == '!';
                            let pat = if neg {
                                a@.drop_first()
                            } else {
                                a@
                            };
                            p.filter matches Some(f) && f@ == pat && p.keep_filter == neg
                        },
                    }
                    &&& out.deep_view() == filtered(p, completions.deep_view()).map_values(
                        |e: Seq<char>| decorated(p, e),
                    )
                },
            None => {
                &&& filter_arg is Some
                &&& {
                    let a = filter_arg.unwrap();
                    let neg = a@.len() > 0 && a@[0] == '!';
                    let pat = if neg {
                        a@.drop_first()
                    } else {
                        a@
                    };
                    !glob_valid(pat)
                }
            },
        },
{
    match build_filter_params(filter_arg, input, prepend, append) {
        None => None,
        Some(params) => {
            let out = filter_and_display(completions, &params);
            proof {
                let p = params;
                assert(p.wf());
            }
            Some(out)
        },
    }
}

/// Every element of a sequence satisfying `pred` is kept by `filter`,
/// so filtering such a sequence returns it unchanged.
proof fn lemma_filter_all_true<A>(s: Seq<A>, pred: spec_fn(A) -> bool)
    requires
        forall|i: int| 0 <= i < s.len() ==> pred(s[i]),
    ensures
        s.filter(pred) == s,
    decreases s.len(),
{
    reveal(Seq::filter);
    if s.len() > 0 {
        lemma_filter_all_true(s.drop_last(), pred);
        assert(s.drop_last().filter(pred).push(s.last()) =~= s);
    }
}

/// Two predicates agreeing on every element of a sequence filter it to the
/// same subsequence.
proof fn lemma_filter_congruence<A>(s: Seq<A>, p1: spec_fn(A) -> bool, p2: spec_fn(A) -> bool)
    requires
        forall|i: int| 0 <= i < s.len() ==> p1(s[i]) == p2(s[i]),
    ensures
        s.filter(p1) == s.filter(p2),
    decreases s.len(),
{
    reveal(Seq::filter);
    if s.len() > 0 {
        lemma_filter_congruence(s.drop_last(), p1, p2);
    }
}

/// With no glob configured, filtering keeps exactly the candidates that
/// have the configured prefix as a literal leading substring; the empty
/// prefix keeps every candidate.
pub proof fn lemma_prefix_filter(p: FilterParams, cs: Seq<Seq<char>>)
    requires
        p.filter is None,
    ensures
        filtered(p, cs) == cs.filter(|e: Seq<char>| p.input@.is_prefix_of(e)),
        p.input@.len() == 0 ==> filtered(p, cs) == cs,
{
    lemma_filter_congruence(
        cs,
        |e: Seq<char>| keeps(p, e),
        |e: Seq<char>| p.input@.is_prefix_of(e),
    );
    if p.input@.len() == 0 {
        assert(forall|i: int| 0 <= i < cs.len() ==> #[trigger] keeps(p, cs[i])) by {
            assert(forall|e: Seq<char>| p.input@ =~= #[trigger] e.subrange(0, 0));
        }
        lemma_filter_all_true(cs, |e: Seq<char>| keeps(p, e));
    }
}

/// Glob polarity: with the default polarity the output is the candidate
/// sequence minus the candidates matching the glob; with the flipped
/// polarity it is exactly the candidates matching the glob.  (Stated with
/// an empty prefix, so that only the glob narrows the sequence.)
pub proof fn lemma_glob_polarity(p: FilterParams, cs: Seq<Seq<char>>, g: Seq<char>)
    requires
        p.filter matches Some(f) && f@ == g,
        p.input@.len() == 0,
    ensures
        !p.keep_filter ==> filtered(p, cs) == cs.filter(|e: Seq<char>| !glob_matches(g, e)),
        p.keep_filter ==> filtered(p, cs) == cs.filter(|e: Seq<char>| glob_matches(g, e)),
{
    assert(forall|e: Seq<char>| p.input@ =~= #[trigger] e.subrange(0, 0));
    if p.keep_filter {
        lemma_filter_congruence(
            cs,
            |e: Seq<char>| keeps(p, e),
            |e: Seq<char>| glob_matches(g, e),
        );
    } else {
        lemma_filter_congruence(
            cs,
            |e: Seq<char>| keeps(p, e),
            |e: Seq<char>| !glob_matches(g, e),
        );
    }
}

/// Filtering an already-filtered sequence with the same filter returns it
/// unchanged.
pub proof fn lemma_filter_idempotent(p: FilterParams, cs: Seq<Seq<char>>)
    ensures
        filtered(p, filtered(p, cs)) == filtered(p, cs),
{
    let pred = |e: Seq<char>| keeps(p, e);
    let once = cs.filter(pred);
    assert(forall|i: int| 0 <= i < once.len() ==> pred(once[i])) by {
        broadcast use Seq::lemma_filter_pred;

    }
    lemma_filter_all_true(once, pred);
}

} // verus!
