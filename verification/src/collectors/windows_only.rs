//! The Windows collector (WMI): it reports the BIOS vendor as unavailable until
//! its readings are implemented.

use vstd::prelude::*;

use crate::normalizer::{models, unavailable_model, Category, Metric, MetricModel};

verus! {

pub struct WindowsWmiCollector {
    name: &'static str,
}

impl WindowsWmiCollector {
    /// The source name this collector writes into its metrics.
    pub closed spec fn source_name(&self) -> Seq<char> {
        self.name@
    }

    /// What `collect` gives: one unavailable BIOS metric.
    pub open spec fn collected(&self) -> Seq<MetricModel> {
        seq![
            unavailable_model(
                Category::Bios,
                "bios_vendor"@,
                self.source_name(),
                "Coletor WMI ainda não implementado (Fase 2 do roadmap)"@,
                false,
            ),
        ]
    }

    pub fn new() -> (c: WindowsWmiCollector)
        ensures
            c.source_name() == "wmi"@,
    {
        WindowsWmiCollector { name: "wmi" }
    }

    pub fn name(&self) -> (r: &'static str)
        ensures
            r@ == self.source_name(),
    {
        self.name
    }

    pub fn category(&self) -> (c: Category)
        ensures
            c == Category::Machine,
    {
        Category::Machine
    }

    pub fn collect(&self) -> (ms: Vec<Metric>)
        ensures
            models(ms@) == self.collected(),
    {
        let m = Metric::unavailable(
            Category::Bios,
            "bios_vendor",
            self.name,
            "Coletor WMI ainda não implementado (Fase 2 do roadmap)",
            false,
        );
        let ms = vec![m];
        proof {
            assert(models(ms@) =~= self.collected());
        }
        ms
    }
}

impl Default for WindowsWmiCollector {
    fn default() -> (c: WindowsWmiCollector)
        ensures
            c.source_name() == "wmi"@,
    {
        WindowsWmiCollector::new()
    }
}

} // verus!
