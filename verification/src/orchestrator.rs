use vstd::prelude::*;

use crate::metrics::PSIResultValues;
use crate::rational::Rat;
use crate::statistics::{is_mean_of, is_median_of, mean, median, samples_bounded};
use crate::PsiError;

verus! {

/// The URLs whose test did not succeed, in order: `urls[i]` is kept exactly
/// when `succeeded[i]` is false.
pub open spec fn keep_failed(urls: Seq<Seq<char>>, succeeded: Seq<bool>) -> Seq<Seq<char>>
    decreases urls.len(),
{
    if urls.len() == 0 {
        Seq::empty()
    } else if succeeded.len() > 0 && succeeded[0] {
        keep_failed(urls.drop_first(), succeeded.drop_first())
    } else {
        seq![urls[0]] + keep_failed(urls.drop_first(), succeeded.drop_first())
    }
}

/// The URLs whose test succeeded, in order: one summary row is emitted for
/// each of them.
pub open spec fn keep_ok(urls: Seq<Seq<char>>, succeeded: Seq<bool>) -> Seq<Seq<char>>
    decreases urls.len(),
{
    if urls.len() == 0 {
        Seq::empty()
    } else if succeeded.len() > 0 && succeeded[0] {
        seq![urls[0]] + keep_ok(urls.drop_first(), succeeded.drop_first())
    } else {
        keep_ok(urls.drop_first(), succeeded.drop_first())
    }
}

/// How many entries of `s` equal `u`.
pub open spec fn count_matches(s: Seq<Seq<char>>, u: Seq<char>) -> nat
    decreases s.len(),
{
    if s.len() == 0 {
        0
    } else {
        (if s[0] == u {
            1nat
        } else {
            0nat
        }) + count_matches(s.drop_first(), u)
    }
}

/// A sequence counts at least one match at any index holding `u`.
proof fn lemma_count_index(s: Seq<Seq<char>>, u: Seq<char>, i: int)
    requires
        0 <= i < s.len(),
        s[i] == u,
    ensures
        count_matches(s, u) >= 1,
    decreases s.len(),
{
    if i > 0 {
        lemma_count_index(s.drop_first(), u, i - 1);
    }
}

/// Counting distributes over putting one element in front.
proof fn lemma_count_cons(a: Seq<char>, s: Seq<Seq<char>>, u: Seq<char>)
    ensures
        count_matches(seq![a] + s, u) == (if a == u {
            1nat
        } else {
            0nat
        }) + count_matches(s, u),
{
    assert((seq![a] + s).drop_first() =~= s);
    assert((seq![a] + s)[0] == a);
}

/// A URL that never occurs in the worklist occurs neither among the kept
/// failures nor among the emitted rows.
proof fn lemma_count_zero_keep(urls: Seq<Seq<char>>, ok: Seq<bool>, u: Seq<char>)
    requires
        ok.len() == urls.len(),
        count_matches(urls, u) == 0,
    ensures
        count_matches(keep_failed(urls, ok), u) == 0,
        count_matches(keep_ok(urls, ok), u) == 0,
    decreases urls.len(),
{
    if urls.len() > 0 {
        lemma_count_zero_keep(urls.drop_first(), ok.drop_first(), u);
        if !ok[0] {
            lemma_count_cons(urls[0], keep_failed(urls.drop_first(), ok.drop_first()), u);
        } else {
            lemma_count_cons(urls[0], keep_ok(urls.drop_first(), ok.drop_first()), u);
        }
    }
}

/// One pass over a worklist holding `u` exactly once, with `u`'s outcome at
/// index `j`: `u` stays in the failed list iff its test failed, and gets a
/// row iff its test succeeded — in either case exactly once.
proof fn lemma_keep_once(urls: Seq<Seq<char>>, ok: Seq<bool>, u: Seq<char>, j: int)
    requires
        ok.len() == urls.len(),
        0 <= j < urls.len(),
        urls[j] == u,
        count_matches(urls, u) == 1,
    ensures
        count_matches(keep_failed(urls, ok), u) == (if ok[j] {
            0nat
        } else {
            1nat
        }),
        count_matches(keep_ok(urls, ok), u) == (if ok[j] {
            1nat
        } else {
            0nat
        }),
    decreases urls.len(),
{
    let urls1 = urls.drop_first();
    let ok1 = ok.drop_first();
    if j == 0 {
        assert(count_matches(urls1, u) == 0);
        lemma_count_zero_keep(urls1, ok1, u);
        if !ok[0] {
            lemma_count_cons(urls[0], keep_failed(urls1, ok1), u);
        } else {
            lemma_count_cons(urls[0], keep_ok(urls1, ok1), u);
        }
    } else {
        assert(urls1[j - 1] == u);
        lemma_count_index(urls1, u, j - 1);
        assert(urls[0] != u);
        lemma_keep_once(urls1, ok1, u, j - 1);
        if !ok[0] {
            lemma_count_cons(urls[0], keep_failed(urls1, ok1), u);
        } else {
            lemma_count_cons(urls[0], keep_ok(urls1, ok1), u);
        }
    }
}

/// A URL that occurs once in the batch, fails its initial test and the first
/// retry pass, and succeeds in the second retry pass, is no longer in the
/// final failed list, and exactly one summary row is emitted for it over the
/// whole batch.
pub proof fn lemma_retried_url_recovers(
    urls: Seq<Seq<char>>,
    ok0: Seq<bool>,
    ok1: Seq<bool>,
    ok2: Seq<bool>,
    u: Seq<char>,
    j0: int,
    j1: int,
    j2: int,
)
    requires
        ok0.len() == urls.len(),
        ok1.len() == keep_failed(urls, ok0).len(),
        ok2.len() == keep_failed(keep_failed(urls, ok0), ok1).len(),
        count_matches(urls, u) == 1,
        0 <= j0 < urls.len() && urls[j0] == u && !ok0[j0],
        0 <= j1 < keep_failed(urls, ok0).len() && keep_failed(urls, ok0)[j1] == u && !ok1[j1],
        0 <= j2 < keep_failed(keep_failed(urls, ok0), ok1).len()
            && keep_failed(keep_failed(urls, ok0), ok1)[j2] == u && ok2[j2],
    ensures
        count_matches(keep_failed(keep_failed(keep_failed(urls, ok0), ok1), ok2), u) == 0,
        count_matches(keep_ok(urls, ok0), u)
            + count_matches(keep_ok(keep_failed(urls, ok0), ok1), u)
            + count_matches(keep_ok(keep_failed(keep_failed(urls, ok0), ok1), ok2), u) == 1,
{
    let f0 = keep_failed(urls, ok0);
    let f1 = keep_failed(f0, ok1);
    lemma_keep_once(urls, ok0, u, j0);
    lemma_keep_once(f0, ok1, u, j1);
    lemma_keep_once(f1, ok2, u, j2);
}

/// A URL that occurs once in the batch and fails all three attempts (the
/// initial test and both retry passes) is in the final failed list exactly
/// once, and no summary row is ever emitted for it.
pub proof fn lemma_failed_url_reported_once(
    urls: Seq<Seq<char>>,
    ok0: Seq<bool>,
    ok1: Seq<bool>,
    ok2: Seq<bool>,
    u: Seq<char>,
    j0: int,
    j1: int,
    j2: int,
)
    requires
        ok0.len() == urls.len(),
        ok1.len() == keep_failed(urls, ok0).len(),
        ok2.len() == keep_failed(keep_failed(urls, ok0), ok1).len(),
        count_matches(urls, u) == 1,
        0 <= j0 < urls.len() && urls[j0] == u && !ok0[j0],
        0 <= j1 < keep_failed(urls, ok0).len() && keep_failed(urls, ok0)[j1] == u && !ok1[j1],
        0 <= j2 < keep_failed(keep_failed(urls, ok0), ok1).len()
            && keep_failed(keep_failed(urls, ok0), ok1)[j2] == u && !ok2[j2],
    ensures
        count_matches(keep_failed(keep_failed(keep_failed(urls, ok0), ok1), ok2), u) == 1,
        count_matches(keep_ok(urls, ok0), u)
            + count_matches(keep_ok(keep_failed(urls, ok0), ok1), u)
            + count_matches(keep_ok(keep_failed(keep_failed(urls, ok0), ok1), ok2), u) == 0,
{
    let f0 = keep_failed(urls, ok0);
    let f1 = keep_failed(f0, ok1);
    lemma_keep_once(urls, ok0, u, j0);
    lemma_keep_once(f0, ok1, u, j1);
    lemma_keep_once(f1, ok2, u, j2);
}

/// One pass of the batch orchestrator's bookkeeping: the URLs whose test did
/// not succeed, in input order. The initial pass applies this to the whole
/// worklist; each retry pass applies it to the previous failed list.
pub fn remaining_failures(urls: &Vec<String>, succeeded: &Vec<bool>) -> (r: Vec<String>)
    requires
        urls@.len() == succeeded@.len(),
    ensures
        r.deep_view() == keep_failed(urls.deep_view(), succeeded@),
{
    let mut r: Vec<String> = Vec::new();
    let mut i: usize = 0;
    while i < urls.len()
        invariant
            i <= urls@.len(),
            urls@.len() == succeeded@.len(),
            r.deep_view() == keep_failed(urls.deep_view().take(i as int), succeeded@.take(i as int)),
        decreases urls@.len() - i,
    {
        let ghost pre = r.deep_view();
        if !succeeded[i] {
            let u = urls[i].clone();
            r.push(u);
            proof {
                assert(r.deep_view() =~= pre.push(urls.deep_view()[i as int]));
            }
        }
        proof {
            lemma_keep_failed_snoc(
                urls.deep_view().take(i as int),
                succeeded@.take(i as int),
                urls.deep_view()[i as int],
                succeeded@[i as int],
            );
            assert(urls.deep_view().take(i + 1) =~= urls.deep_view().take(i as int).push(
                urls.deep_view()[i as int],
            ));
            assert(succeeded@.take(i + 1) =~= succeeded@.take(i as int).push(
                succeeded@[i as int],
            ));
        }
        i += 1;
    }
    proof {
        assert(urls.deep_view().take(urls@.len() as int) =~= urls.deep_view());
        assert(succeeded@.take(succeeded@.len() as int) =~= succeeded@);
    }
    r
}

/// Appending one url/outcome pair extends the kept failures by the url
/// exactly when the outcome is a failure.
proof fn lemma_keep_failed_snoc(urls: Seq<Seq<char>>, ok: Seq<bool>, u: Seq<char>, o: bool)
    requires
        ok.len() == urls.len(),
    ensures
        keep_failed(urls.push(u), ok.push(o)) == if o {
            keep_failed(urls, ok)
        } else {
            keep_failed(urls, ok).push(u)
        },
    decreases urls.len(),
{
    if urls.len() == 0 {
        assert(urls.push(u)[0] == u);
        assert(ok.push(o)[0] == o);
        assert(urls.push(u).drop_first() =~= Seq::<Seq<char>>::empty());
        assert(ok.push(o).drop_first() =~= Seq::<bool>::empty());
        assert(keep_failed(Seq::<Seq<char>>::empty(), Seq::<bool>::empty())
            =~= Seq::<Seq<char>>::empty());
        assert(keep_failed(urls, ok) =~= Seq::<Seq<char>>::empty());
        if o {
            assert(keep_failed(urls.push(u), ok.push(o)) == keep_failed(
                urls.push(u).drop_first(),
                ok.push(o).drop_first(),
            ));
        } else {
            assert(keep_failed(urls.push(u), ok.push(o)) == seq![u] + keep_failed(
                urls.push(u).drop_first(),
                ok.push(o).drop_first(),
            ));
            assert(seq![u] + Seq::<Seq<char>>::empty() =~= keep_failed(urls, ok).push(u));
        }
    } else {
        lemma_keep_failed_snoc(urls.drop_first(), ok.drop_first(), u, o);
        assert(urls.push(u).drop_first() =~= urls.drop_first().push(u));
        assert(ok.push(o).drop_first() =~= ok.drop_first().push(o));
        assert(urls.push(u)[0] == urls[0]);
        assert(ok.push(o)[0] == ok[0]);
        if ok[0] {
            assert(keep_failed(urls.push(u), ok.push(o)) == keep_failed(
                urls.drop_first().push(u),
                ok.drop_first().push(o),
            ));
        } else {
            assert(keep_failed(urls.push(u), ok.push(o)) == seq![urls[0]] + keep_failed(
                urls.drop_first().push(u),
                ok.drop_first().push(o),
            ));
            if !o {
                assert((seq![urls[0]] + keep_failed(urls.drop_first(), ok.drop_first())).push(u)
                    =~= seq![urls[0]] + keep_failed(urls.drop_first(), ok.drop_first()).push(u));
            }
        }
    }
}

/// The order in which one retry pass walks the failed list: from the last
/// URL to the first, so that removing a recovered URL never shifts the ones
/// still to be retested.
pub fn retry_order(failed: &Vec<String>) -> (r: Vec<String>)
    ensures
        r@.len() == failed@.len(),
        forall|k: int|
            0 <= k < r@.len() ==> (#[trigger] r@[k])@ == failed@[failed@.len() - 1 - k]@,
{
    let mut r: Vec<String> = Vec::new();
    let n = failed.len();
    let mut i: usize = 0;
    while i < n
        invariant
            i <= n,
            n == failed@.len(),
            r@.len() == i,
            forall|k: int|
                0 <= k < i ==> (#[trigger] r@[k])@ == failed@[failed@.len() - 1 - k]@,
        decreases n - i,
    {
        let u = failed[n - 1 - i].clone();
        r.push(u);
        i += 1;
    }
    r
}

/// A per-URL batch test succeeds exactly when both strategies collected one
/// sample per requested run, for every metric.
pub fn batch_test_success(
    mobile: &PSIResultValues,
    desktop: &PSIResultValues,
    number_of_runs: usize,
) -> (r: bool)
    ensures
        r == (mobile.run_count() == number_of_runs && desktop.run_count() == number_of_runs),
{
    mobile.score.len() == number_of_runs && desktop.score.len() == number_of_runs
}

/// One summary row of the batch output: the mean and median of the
/// performance score, for each strategy.
pub struct Row {
    pub url: String,
    pub d_mean: Rat,
    pub d_median: Rat,
    pub m_mean: Rat,
    pub m_median: Rat,
}

/// Computes the summary row of one URL from its two collected metric sets:
/// mean and median of the `score` metric per strategy. Zero successful runs
/// for either strategy are an [`PsiError::InsufficientData`] error.
pub fn batch_row(url: &str, mobile: &PSIResultValues, desktop: &PSIResultValues) -> (r: Result<
    Row,
    PsiError,
>)
    requires
        samples_bounded(mobile.score@),
        samples_bounded(desktop.score@),
        mobile.score@.len() != 2,
        desktop.score@.len() != 2,
    ensures
        match r {
            Ok(row) => mobile.run_count() > 0 && desktop.run_count() > 0 && row.url@ == url@
                && is_mean_of(row.m_mean, mobile.score@) && is_median_of(row.m_median, mobile.score@)
                && is_mean_of(row.d_mean, desktop.score@) && is_median_of(
                row.d_median,
                desktop.score@,
            ),
            Err(e) => (mobile.run_count() == 0 || desktop.run_count() == 0) && e
                == PsiError::InsufficientData,
        },
{
    let m_mean = match mean(&mobile.score) {
        Ok(v) => v,
        Err(e) => {
            return Err(e);
        },
    };
    let m_median = match median(&mobile.score) {
        Ok(v) => v,
        Err(e) => {
            return Err(e);
        },
    };
    let d_mean = match mean(&desktop.score) {
        Ok(v) => v,
        Err(e) => {
            return Err(e);
        },
    };
    let d_median = match median(&desktop.score) {
        Ok(v) => v,
        Err(e) => {
            return Err(e);
        },
    };
    Ok(Row { url: url.to_owned(), d_mean, d_median, m_mean, m_median })
}

} // verus!
