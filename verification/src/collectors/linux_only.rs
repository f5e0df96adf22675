//! The Linux collector (shell tools): it reports the BIOS vendor as unavailable until
//! its readings are implemented.

use vstd::prelude::*;

use crate::normalizer::{models, unavailable_model, Category, Metric, MetricModel};

verus! {

pub struct LinuxShellCollector {
    name: &'static str,
}

impl LinuxShellCollector {
    /// The source name this collector writes into its metrics.
    pub closed spec fn source_name(&self) -> Seq<char> {
        self.name@
    }

    /// What `collect` gives: one unavailable BIOS metric.
    pub open spec fn collected(&self) -> Seq<MetricModel> {
        seq![
            unavailable_model(
                Category::Bios,
                "bios_vendor"@,
                self.source_name(),
                "Coletor shell Linux ainda não implementado (Fase 3 do roadmap)"@,
                false,
            ),
        ]
    }

    pub fn new() -> (c: LinuxShellCollector)
        ensures
            c.source_name() == "linux-shell"@,
    {
        LinuxShellCollector { name: "linux-shell" }
    }

    pub fn name(&self) -> (r: &'static str)
        ensures
            r@ == self.source_name(),
    {
        self.name
    }

    pub fn category(&self) -> (c: Category)
        ensures
            c == Category::Machine,
    {
        Category::Machine
    }

    pub fn collect(&self) -> (ms: Vec<Metric>)
        ensures
            models(ms@) == self.collected(),
    {
        let m = Metric::unavailable(
            Category::Bios,
            "bios_vendor",
            self.name,
            "Coletor shell Linux ainda não implementado (Fase 3 do roadmap)",
            false,
        );
        let ms = vec![m];
        proof {
            assert(models(ms@) =~= self.collected());
        }
        ms
    }
}

impl Default for LinuxShellCollector {
    fn default() -> (c: LinuxShellCollector)
        ensures
            c.source_name() == "linux-shell"@,
    {
        LinuxShellCollector::new()
    }
}

} // verus!
