//! A recorded metric: the category it belongs to and its value.

use vstd::prelude::*;
use crate::json::clone_value;

verus! {

/// What is stored under one key of a store.
#[derive(Debug, PartialEq)]
pub struct Metric {
    category: String,
    value: serde_json::Value,
}

/// A metric as a mathematical value.
pub struct MetricView {
    pub category: Seq<char>,
    pub value: serde_json::Value,
}

impl View for Metric {
    type V = MetricView;

    closed spec fn view(&self) -> MetricView {
        MetricView { category: self.category@, value: self.value }
    }
}

impl Metric {
    /// A metric of the given category with the given value.
    pub fn new(category: String, value: serde_json::Value) -> (metric: Metric)
        ensures
            metric@ == (MetricView { category: category@, value }),
    {
        Metric { category, value }
    }

    /// The category that the metric is listed under in a snapshot.
    pub fn category(&self) -> (category: &str)
        ensures
            category@ == self@.category,
    {
        self.category.as_str()
    }

    /// The metric's value as JSON.
    pub fn as_json(&self) -> (value: serde_json::Value)
        ensures
            value == self@.value,
    {
        clone_value(&self.value)
    }
}

impl Clone for Metric {
    fn clone(&self) -> (copy: Metric)
        ensures
            copy@ == self@,
    {
        Metric { category: self.category.clone(), value: clone_value(&self.value) }
    }
}

} // verus!
