use vstd::prelude::*;

use crate::statistics::samples_bounded;

verus! {

broadcast use vstd::prelude::Seq::lemma_filter_push;

/// The fixed, closed set of metric names tracked for every run.
#[derive(Clone, Copy, Debug, PartialEq, Eq, Structural)]
pub enum Metric {
    CumulativeLayoutShift,
    FirstContentfulPaint,
    JsExecutionTime,
    LargestContentfulPaint,
    SpeedIndex,
    TimeToInteractive,
    TotalBlockingTime,
    Score,
}

/// Device-class context of a measurement.
#[allow(non_camel_case_types)]
#[derive(Clone, Copy, Debug, PartialEq, Eq, Structural)]
pub enum Strategy {
    MOBILE,
    DESKTOP,
}

impl Strategy {
    /// The lower-case name the external API expects as its `strategy` query
    /// parameter.
    pub open spec fn label_spec(self) -> Seq<char> {
        if self == Strategy::MOBILE {
            "mobile"@
        } else {
            "desktop"@
        }
    }

    pub fn label(&self) -> (r: &'static str)
        ensures
            r@ == self.label_spec(),
    {
        match self {
            Strategy::MOBILE => "mobile",
            Strategy::DESKTOP => "desktop",
        }
    }
}

/// One run record: the fixed-point value of every tracked metric for a
/// single (url, strategy, run) triple.
#[derive(Clone, Copy, Debug, PartialEq, Eq, Structural)]
pub struct LHResult {
    pub cumulative_layout_shift: i64,
    pub first_contentful_paint: i64,
    pub js_execution_time: i64,
    pub largest_contentful_paint: i64,
    pub speed_index: i64,
    pub time_to_interactive: i64,
    pub total_blocking_time: i64,
    pub score: i64,
}

impl LHResult {
    /// The sample this record holds for the given metric.
    pub open spec fn metric_value(self, m: Metric) -> i64 {
        match m {
            Metric::CumulativeLayoutShift => self.cumulative_layout_shift,
            Metric::FirstContentfulPaint => self.first_contentful_paint,
            Metric::JsExecutionTime => self.js_execution_time,
            Metric::LargestContentfulPaint => self.largest_contentful_paint,
            Metric::SpeedIndex => self.speed_index,
            Metric::TimeToInteractive => self.time_to_interactive,
            Metric::TotalBlockingTime => self.total_blocking_time,
            Metric::Score => self.score,
        }
    }

    /// A record stands for a failed run when its speed index is exactly
    /// zero: legitimate measurements are never exactly zero.
    pub open spec fn is_failed(self) -> bool {
        self.speed_index == 0
    }

    /// The all-zero sentinel record substituted for a failed fetch.
    pub fn sentinel() -> (r: LHResult)
        ensures
            forall|m: Metric| #[trigger] r.metric_value(m) == 0,
            r.is_failed(),
    {
        LHResult {
            cumulative_layout_shift: 0,
            first_contentful_paint: 0,
            js_execution_time: 0,
            largest_contentful_paint: 0,
            speed_index: 0,
            time_to_interactive: 0,
            total_blocking_time: 0,
            score: 0,
        }
    }
}

/// A metric set: for each metric, the ordered sequence of samples of the
/// successful runs of one (url, strategy) pair. All sequences have the same
/// length.
pub struct PSIResultValues {
    pub cumulative_layout_shift: Vec<i64>,
    pub first_contentful_paint: Vec<i64>,
    pub js_execution_time: Vec<i64>,
    pub largest_contentful_paint: Vec<i64>,
    pub speed_index: Vec<i64>,
    pub time_to_interactive: Vec<i64>,
    pub total_blocking_time: Vec<i64>,
    pub score: Vec<i64>,
}

impl PSIResultValues {
    /// The sample sequence of the given metric.
    pub open spec fn samples(self, m: Metric) -> Seq<i64> {
        match m {
            Metric::CumulativeLayoutShift => self.cumulative_layout_shift@,
            Metric::FirstContentfulPaint => self.first_contentful_paint@,
            Metric::JsExecutionTime => self.js_execution_time@,
            Metric::LargestContentfulPaint => self.largest_contentful_paint@,
            Metric::SpeedIndex => self.speed_index@,
            Metric::TimeToInteractive => self.time_to_interactive@,
            Metric::TotalBlockingTime => self.total_blocking_time@,
            Metric::Score => self.score@,
        }
    }

    /// The number of successful runs this set was built from.
    pub open spec fn run_count(self) -> nat {
        self.score@.len()
    }

    /// Every metric has one sample per successful run.
    pub open spec fn wf(self) -> bool {
        forall|m: Metric| (#[trigger] self.samples(m)).len() == self.run_count()
    }

    /// Every sample of every metric is within the fixed-point limit.
    pub open spec fn bounded(self) -> bool {
        forall|m: Metric| samples_bounded(#[trigger] self.samples(m))
    }
}

impl View for PSIResultValues {
    type V = Map<Metric, Seq<i64>>;

    open spec fn view(&self) -> Map<Metric, Seq<i64>> {
        Map::new(|m: Metric| true, |m: Metric| self.samples(m))
    }
}

/// A statistic result: one value of type `T` per metric, parallel in shape
/// to a [`PSIResultValues`].
pub struct PSIStatisticResult<T> {
    pub cumulative_layout_shift: T,
    pub first_contentful_paint: T,
    pub js_execution_time: T,
    pub largest_contentful_paint: T,
    pub speed_index: T,
    pub time_to_interactive: T,
    pub total_blocking_time: T,
    pub score: T,
}

impl<T> PSIStatisticResult<T> {
    /// The entry of the given metric.
    pub open spec fn entry(self, m: Metric) -> T {
        match m {
            Metric::CumulativeLayoutShift => self.cumulative_layout_shift,
            Metric::FirstContentfulPaint => self.first_contentful_paint,
            Metric::JsExecutionTime => self.js_execution_time,
            Metric::LargestContentfulPaint => self.largest_contentful_paint,
            Metric::SpeedIndex => self.speed_index,
            Metric::TimeToInteractive => self.time_to_interactive,
            Metric::TotalBlockingTime => self.total_blocking_time,
            Metric::Score => self.score,
        }
    }
}

impl<T> View for PSIStatisticResult<T> {
    type V = Map<Metric, T>;

    open spec fn view(&self) -> Map<Metric, T> {
        Map::new(|m: Metric| true, |m: Metric| self.entry(m))
    }
}

/// Copies out the sample sequence of one metric from a sequence of run
/// records, in record order.
fn project(records: &Vec<LHResult>, m: Metric) -> (r: Vec<i64>)
    ensures
        r@ == records@.map_values(|l: LHResult| l.metric_value(m)),
{
    let mut out: Vec<i64> = Vec::new();
    let mut i: usize = 0;
    while i < records.len()
        invariant
            i <= records@.len(),
            out@ == records@.take(i as int).map_values(|l: LHResult| l.metric_value(m)),
        decreases records@.len() - i,
    {
        let rec = records[i];
        let v = match m {
            Metric::CumulativeLayoutShift => rec.cumulative_layout_shift,
            Metric::FirstContentfulPaint => rec.first_contentful_paint,
            Metric::JsExecutionTime => rec.js_execution_time,
            Metric::LargestContentfulPaint => rec.largest_contentful_paint,
            Metric::SpeedIndex => rec.speed_index,
            Metric::TimeToInteractive => rec.time_to_interactive,
            Metric::TotalBlockingTime => rec.total_blocking_time,
            Metric::Score => rec.score,
        };
        out.push(v);
        proof {
            assert(records@.take(i + 1) =~= records@.take(i as int).push(records@[i as int]));
            assert(records@.take(i + 1).map_values(|l: LHResult| l.metric_value(m)) =~= records@
                .take(i as int).map_values(|l: LHResult| l.metric_value(m)).push(v));
        }
        i += 1;
    }
    proof {
        assert(records@.take(records@.len() as int) =~= records@);
    }
    out
}

/// Transposes a sequence of run records into a metric set: for each metric,
/// the samples of all records in record order.
pub fn map_audits(lh_results: &Vec<LHResult>) -> (r: PSIResultValues)
    ensures
        forall|m: Metric| #[trigger] r.samples(m) == lh_results@.map_values(
            |l: LHResult| l.metric_value(m),
        ),
        r.wf(),
        r.run_count() == lh_results@.len(),
{
    let r = PSIResultValues {
        cumulative_layout_shift: project(lh_results, Metric::CumulativeLayoutShift),
        first_contentful_paint: project(lh_results, Metric::FirstContentfulPaint),
        js_execution_time: project(lh_results, Metric::JsExecutionTime),
        largest_contentful_paint: project(lh_results, Metric::LargestContentfulPaint),
        speed_index: project(lh_results, Metric::SpeedIndex),
        time_to_interactive: project(lh_results, Metric::TimeToInteractive),
        total_blocking_time: project(lh_results, Metric::TotalBlockingTime),
        score: project(lh_results, Metric::Score),
    };
    r
}

/// The run records that stand for successful runs, in record order.
pub open spec fn successful(records: Seq<LHResult>) -> Seq<LHResult> {
    records.filter(|l: LHResult| !l.is_failed())
}

/// The audit collector's aggregation step: drops the records of failed runs
/// (speed index exactly zero) and transposes the rest into a metric set.
/// The resulting sequences are as long as the number of successful runs,
/// which may be less than the number of records.
pub fn build_metric_set(records: &Vec<LHResult>) -> (r: PSIResultValues)
    ensures
        forall|m: Metric| #[trigger] r.samples(m) == successful(records@).map_values(
            |l: LHResult| l.metric_value(m),
        ),
        r.wf(),
        r.run_count() == successful(records@).len(),
{
    let mut kept: Vec<LHResult> = Vec::new();
    let mut i: usize = 0;
    while i < records.len()
        invariant
            i <= records@.len(),
            kept@ == successful(records@.take(i as int)),
        decreases records@.len() - i,
    {
        let rec = records[i];
        if rec.speed_index != 0 {
            kept.push(rec);
        }
        proof {
            assert(records@.take(i + 1) =~= records@.take(i as int).push(records@[i as int]));
        }
        i += 1;
    }
    proof {
        assert(records@.take(records@.len() as int) =~= records@);
    }
    map_audits(&kept)
}

} // verus!
