//! The tests that a dialer runs one after the other: first the uploads, then the
//! downloads, then the latency tests.

use crate::config::AppConfig;
use crate::wire::TestType;
use vstd::prelude::*;

verus! {

/// The tests that a dialer is to run.
pub struct Plan {
    pub upload_bytes: u64,
    pub download_bytes: u64,
    pub upload_iters: usize,
    pub download_iters: usize,
    pub latency_iters: usize,
}

/// A dialer's run through its tests.
pub struct Campaign {
    plan: Plan,
    uploads_run: usize,
    downloads_run: usize,
    latencies_run: usize,
    upload_values: Vec<u64>,
    download_values: Vec<u64>,
    latency_values: Vec<u64>,
}

/// How far a dialer is with its tests, and the values that it has measured.
pub struct CampaignView {
    pub plan: Plan,
    pub uploads_run: nat,
    pub downloads_run: nat,
    pub latencies_run: nat,
    pub upload_values: Seq<u64>,
    pub download_values: Seq<u64>,
    pub latency_values: Seq<u64>,
}

impl View for Campaign {
    type V = CampaignView;

    closed spec fn view(&self) -> CampaignView {
        CampaignView {
            plan: self.plan,
            uploads_run: self.uploads_run as nat,
            downloads_run: self.downloads_run as nat,
            latencies_run: self.latencies_run as nat,
            upload_values: self.upload_values@,
            download_values: self.download_values@,
            latency_values: self.latency_values@,
        }
    }
}

/// The values so far and what a test measured, if it measured anything.
pub open spec fn with_value(values: Seq<u64>, value: Option<u64>) -> Seq<u64> {
    match value {
        Some(v) => values.push(v),
        None => values,
    }
}

impl CampaignView {
    /// The start of a run.
    pub open spec fn start(plan: Plan) -> CampaignView {
        CampaignView {
            plan,
            uploads_run: 0,
            downloads_run: 0,
            latencies_run: 0,
            upload_values: Seq::empty(),
            download_values: Seq::empty(),
            latency_values: Seq::empty(),
        }
    }

    /// The next test, and how many of its kind there are with it.
    pub open spec fn next(self) -> Option<(TestType, nat)> {
        if self.uploads_run < self.plan.upload_iters {
            Some((TestType::Upload { bytes: self.plan.upload_bytes }, self.uploads_run + 1))
        } else if self.downloads_run < self.plan.download_iters {
            Some((TestType::Download { bytes: self.plan.download_bytes }, self.downloads_run + 1))
        } else if self.latencies_run < self.plan.latency_iters {
            Some((TestType::Latency, self.latencies_run + 1))
        } else {
            None
        }
    }

    /// The run after the next test, which measured `value` or failed.
    pub open spec fn after(self, value: Option<u64>) -> CampaignView {
        match self.next() {
            Some((TestType::Upload { .. }, _)) => CampaignView {
                uploads_run: self.uploads_run + 1,
                upload_values: with_value(self.upload_values, value),
                ..self
            },
            Some((TestType::Download { .. }, _)) => CampaignView {
                downloads_run: self.downloads_run + 1,
                download_values: with_value(self.download_values, value),
                ..self
            },
            Some((TestType::Latency, _)) => CampaignView {
                latencies_run: self.latencies_run + 1,
                latency_values: with_value(self.latency_values, value),
                ..self
            },
            None => self,
        }
    }
}

/// The run after several tests.
pub open spec fn after_tests(c: CampaignView, values: Seq<Option<u64>>) -> CampaignView
    decreases values.len(),
{
    if values.len() == 0 {
        c
    } else {
        after_tests(c, values.drop_last()).after(values.last())
    }
}

/// The values of the tests that measured anything, in their order.
pub open spec fn measured(values: Seq<Option<u64>>) -> Seq<u64>
    decreases values.len(),
{
    if values.len() == 0 {
        Seq::empty()
    } else {
        let before = measured(values.drop_last());
        match values.last() {
            Some(v) => before.push(v),
            None => before,
        }
    }
}

/// A run goes through all uploads, then all downloads, then all latency tests,
/// and each value is kept with its kind.
pub proof fn law_tests_run_in_order(plan: Plan, values: Seq<Option<u64>>)
    requires
        values.len() <= plan.upload_iters + plan.download_iters + plan.latency_iters,
    ensures
        ({
            let (u, d) = (plan.upload_iters as int, plan.download_iters as int);
            let n = values.len() as int;
            let (u_end, d_end) = (
                if n < u {
                    n
                } else {
                    u
                },
                if n < u + d {
                    n
                } else {
                    u + d
                },
            );
            let c = after_tests(CampaignView::start(plan), values);
            &&& c.plan == plan
            &&& c.uploads_run == u_end
            &&& c.downloads_run == d_end - u_end
            &&& c.latencies_run == n - d_end
            &&& c.upload_values == measured(values.take(u_end))
            &&& c.download_values == measured(values.subrange(u_end, d_end))
            &&& c.latency_values == measured(values.subrange(d_end, n))
        }),
    decreases values.len(),
{
    let (u, d) = (plan.upload_iters as int, plan.download_iters as int);
    let n = values.len() as int;
    if n == 0 {
        assert(values.take(0) =~= Seq::<Option<u64>>::empty());
        assert(values.subrange(0, 0) =~= Seq::<Option<u64>>::empty());
    } else {
        let before = values.drop_last();
        law_tests_run_in_order(plan, before);
        if n <= u {
            assert(values.take(n).drop_last() =~= before.take(n - 1));
            assert(values.subrange(n, n) =~= before.subrange(n - 1, n - 1));
        } else if n <= u + d {
            assert(values.take(u) =~= before.take(u));
            assert(values.subrange(u, n).drop_last() =~= before.subrange(u, n - 1));
            assert(values.subrange(n, n) =~= before.subrange(n - 1, n - 1));
        } else {
            assert(values.take(u) =~= before.take(u));
            assert(values.subrange(u, u + d) =~= before.subrange(u, u + d));
            assert(values.subrange(u + d, n).drop_last() =~= before.subrange(u + d, n - 1));
        }
    }
}

/// A run is over after as many tests as were planned, and not before.
pub proof fn law_run_ends(plan: Plan, values: Seq<Option<u64>>)
    requires
        values.len() <= plan.upload_iters + plan.download_iters + plan.latency_iters,
    ensures
        after_tests(CampaignView::start(plan), values).next() is None <==> values.len()
            == plan.upload_iters + plan.download_iters + plan.latency_iters,
{
    law_tests_run_in_order(plan, values);
}

impl Campaign {
    pub closed spec fn wf(&self) -> bool {
        &&& self.uploads_run <= self.plan.upload_iters
        &&& self.downloads_run <= self.plan.download_iters
        &&& self.latencies_run <= self.plan.latency_iters
    }

    /// A run through the tests that a configuration asks for.
    pub fn new(cfg: &AppConfig) -> (r: Self)
        ensures
            r.wf(),
            r@ == CampaignView::start(
                Plan {
                    upload_bytes: cfg.upload_bytes,
                    download_bytes: cfg.download_bytes,
                    upload_iters: cfg.upload_iters,
                    download_iters: cfg.download_iters,
                    latency_iters: cfg.latency_iters,
                },
            ),
    {
        Campaign {
            plan: Plan {
                upload_bytes: cfg.upload_bytes,
                download_bytes: cfg.download_bytes,
                upload_iters: cfg.upload_iters,
                download_iters: cfg.download_iters,
                latency_iters: cfg.latency_iters,
            },
            uploads_run: 0,
            downloads_run: 0,
            latencies_run: 0,
            upload_values: Vec::new(),
            download_values: Vec::new(),
            latency_values: Vec::new(),
        }
    }

    /// The next test, and how many of its kind there are with it.
    pub fn next_test(&self) -> (r: Option<(TestType, usize)>)
        requires
            self.wf(),
        ensures
            match r {
                Some(p) => self@.next() == Some((p.0, p.1 as nat)),
                None => self@.next() is None,
            },
    {
        if self.uploads_run < self.plan.upload_iters {
            Some((TestType::Upload { bytes: self.plan.upload_bytes }, self.uploads_run + 1))
        } else if self.downloads_run < self.plan.download_iters {
            Some((TestType::Download { bytes: self.plan.download_bytes }, self.downloads_run + 1))
        } else if self.latencies_run < self.plan.latency_iters {
            Some((TestType::Latency, self.latencies_run + 1))
        } else {
            None
        }
    }

    /// Notes what the next test measured; a test that failed measured nothing.
    pub fn record(&mut self, value: Option<u64>)
        requires
            old(self).wf(),
        ensures
            final(self).wf(),
            final(self)@ == old(self)@.after(value),
    {
        if self.uploads_run < self.plan.upload_iters {
            self.uploads_run = self.uploads_run + 1;
            if let Some(v) = value {
                self.upload_values.push(v);
            }
        } else if self.downloads_run < self.plan.download_iters {
            self.downloads_run = self.downloads_run + 1;
            if let Some(v) = value {
                self.download_values.push(v);
            }
        } else if self.latencies_run < self.plan.latency_iters {
            self.latencies_run = self.latencies_run + 1;
            if let Some(v) = value {
                self.latency_values.push(v);
            }
        }
    }

    /// The values of the uploads, of the downloads and of the latency tests.
    pub fn into_values(self) -> (r: (Vec<u64>, Vec<u64>, Vec<u64>))
        ensures
            r.0@ == self@.upload_values,
            r.1@ == self@.download_values,
            r.2@ == self@.latency_values,
    {
        (self.upload_values, self.download_values, self.latency_values)
    }
}

/// Every test has the size that was planned for its kind, whatever its number and whatever
/// the tests before it measured: first come the uploads, then the downloads, then the
/// latency tests, each kind counted from one.
pub proof fn law_tests_have_the_planned_size(plan: Plan, values: Seq<Option<u64>>)
    requires
        values.len() <= plan.upload_iters + plan.download_iters + plan.latency_iters,
    ensures
        ({
            let (u, d) = (plan.upload_iters as int, plan.download_iters as int);
            let n = values.len() as int;
            let next = after_tests(CampaignView::start(plan), values).next();
            &&& n < u ==> (next matches Some((TestType::Upload { bytes }, k)) && bytes
                == plan.upload_bytes && k == n + 1)
            &&& u <= n < u + d ==> (next matches Some((TestType::Download { bytes }, k)) && bytes
                == plan.download_bytes && k == n - u + 1)
            &&& u + d <= n < u + d + plan.latency_iters ==> (next matches Some(
                (TestType::Latency, k),
            ) && k == n - u - d + 1)
            &&& n == u + d + plan.latency_iters ==> next is None
        }),
{
    law_tests_run_in_order(plan, values);
}

/// In every state of a run the next test has the size of the plan.
pub proof fn law_next_test_has_the_planned_size(c: CampaignView)
    ensures
        c.next() matches Some((TestType::Upload { bytes }, k)) ==> bytes == c.plan.upload_bytes
            && k == c.uploads_run + 1 && c.uploads_run < c.plan.upload_iters,
        c.next() matches Some((TestType::Download { bytes }, k)) ==> bytes == c.plan.download_bytes
            && k == c.downloads_run + 1 && c.downloads_run < c.plan.download_iters,
        c.next() matches Some((TestType::Latency, k)) ==> k == c.latencies_run + 1
            && c.latencies_run < c.plan.latency_iters,
        c.next() is None <==> c.uploads_run >= c.plan.upload_iters && c.downloads_run
            >= c.plan.download_iters && c.latencies_run >= c.plan.latency_iters,
{
}

/// A test adds its value to those of its kind, if it measured anything, and changes nothing
/// of the other kinds.
pub proof fn law_value_goes_to_its_kind(c: CampaignView, value: Option<u64>)
    ensures
        ({
            let after = c.after(value);
            let (u, d, l) = (
                c.next() matches Some((TestType::Upload { .. }, _)),
                c.next() matches Some((TestType::Download { .. }, _)),
                c.next() matches Some((TestType::Latency, _)),
            );
            &&& after.plan == c.plan
            &&& u && value is Some ==> after.upload_values == c.upload_values.push(value->0)
            &&& !u || value is None ==> after.upload_values == c.upload_values
            &&& d && value is Some ==> after.download_values == c.download_values.push(value->0)
            &&& !d || value is None ==> after.download_values == c.download_values
            &&& l && value is Some ==> after.latency_values == c.latency_values.push(value->0)
            &&& !l || value is None ==> after.latency_values == c.latency_values
            &&& after.uploads_run == c.uploads_run + (if u { 1int } else { 0int })
            &&& after.downloads_run == c.downloads_run + (if d { 1int } else { 0int })
            &&& after.latencies_run == c.latencies_run + (if l { 1int } else { 0int })
        }),
{
}

} // verus!
