//! The state of a lookup of one metric by name.

use vstd::prelude::*;
use crate::metric::{Metric, MetricView};

verus! {

/// What a lookup has found so far: the metric of the last visit that had
/// the wanted name.
pub struct Lookup {
    wanted: String,
    found: Option<Metric>,
}

/// A lookup as a mathematical value.
pub struct LookupView {
    pub wanted: Seq<char>,
    pub found: Option<MetricView>,
}

/// A metric that may be absent, as a mathematical value.
pub open spec fn found_view(found: Option<Metric>) -> Option<MetricView> {
    match found {
        Some(metric) => Some(metric@),
        None => None,
    }
}

impl View for Lookup {
    type V = LookupView;

    closed spec fn view(&self) -> LookupView {
        LookupView { wanted: self.wanted@, found: found_view(self.found) }
    }
}

impl Lookup {
    /// A lookup of the name `metric_id` that has found nothing yet.
    pub fn new(metric_id: &str) -> (lookup: Lookup)
        ensures
            lookup@ == (LookupView { wanted: metric_id@, found: None }),
    {
        Lookup { wanted: metric_id.to_owned(), found: None }
    }

    /// Takes note of a visit: where `name` is the wanted name, a copy of
    /// `metric` is what the lookup has found, in place of what it had.
    pub fn visit(&mut self, name: String, metric: &Metric)
        ensures
            final(self)@.wanted == old(self)@.wanted,
            final(self)@.found == (if name@ == old(self)@.wanted {
                Some(metric@)
            } else {
                old(self)@.found
            }),
    {
        if name == self.wanted {
            self.found = Some(metric.clone());
        }
    }

    /// What the lookup has found.
    pub fn finish(self) -> (found: Option<Metric>)
        ensures
            found_view(found) == self@.found,
    {
        self.found
    }
}

} // verus!
