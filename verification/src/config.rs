//! The technician's configuration (`config.toml` beside the binary) and its
//! defaults.

use vstd::prelude::*;

use crate::normalizer::string_of;

verus! {

/// Who runs the diagnostic; shown in the dashboard footer and the report.
#[derive(Debug, Clone)]
pub struct Technician {
    pub name: String,
    pub company: String,
    pub cnpj: String,
    pub website: String,
}

impl Default for Technician {
    fn default() -> (t: Technician)
        ensures
            t.name@ == Seq::<char>::empty(),
            t.company@ == "PB Informática"@,
            t.cnpj@ == Seq::<char>::empty(),
            t.website@ == Seq::<char>::empty(),
    {
        Technician {
            name: String::new(),
            company: string_of("PB Informática"),
            cnpj: String::new(),
            website: String::new(),
        }
    }
}

/// User interface settings.
#[derive(Debug, Clone)]
pub struct Ui {
    /// `"auto"`, `"dark"` or `"light"`.
    pub theme: String,
    /// 0 turns automatic refresh off.
    pub auto_refresh_seconds: u32,
    /// Fixed to `"pt-BR"`.
    pub language: String,
}

impl Default for Ui {
    fn default() -> (u: Ui)
        ensures
            u.theme@ == "auto"@,
            u.auto_refresh_seconds == 0,
            u.language@ == "pt-BR"@,
    {
        Ui { theme: string_of("auto"), auto_refresh_seconds: 0, language: string_of("pt-BR") }
    }
}

/// Collection settings.
#[derive(Debug, Clone)]
pub struct Collection {
    pub parallel_collectors: bool,
    pub timeout_seconds: u32,
    pub include_unavailable: bool,
}

impl Default for Collection {
    fn default() -> (c: Collection)
        ensures
            c.parallel_collectors,
            c.timeout_seconds == 10,
            c.include_unavailable,
    {
        Collection { parallel_collectors: true, timeout_seconds: 10, include_unavailable: true }
    }
}

/// Report export settings.
#[derive(Debug, Clone)]
pub struct Export {
    pub pdf_include_json_appendix: bool,
    pub pdf_company_logo: bool,
}

impl Default for Export {
    fn default() -> (e: Export)
        ensures
            e.pdf_include_json_appendix,
            !e.pdf_company_logo,
    {
        Export { pdf_include_json_appendix: true, pdf_company_logo: false }
    }
}

/// The whole configuration.
#[derive(Debug, Clone)]
pub struct Config {
    pub technician: Technician,
    pub ui: Ui,
    pub collection: Collection,
    pub export: Export,
}

/// The configuration that `Config::default` gives.
pub open spec fn is_default_config(c: Config) -> bool {
    &&& c.technician.name@ == Seq::<char>::empty()
    &&& c.technician.company@ == "PB Informática"@
    &&& c.technician.cnpj@ == Seq::<char>::empty()
    &&& c.technician.website@ == Seq::<char>::empty()
    &&& c.ui.theme@ == "auto"@
    &&& c.ui.auto_refresh_seconds == 0
    &&& c.ui.language@ == "pt-BR"@
    &&& c.collection.parallel_collectors
    &&& c.collection.timeout_seconds == 10
    &&& c.collection.include_unavailable
    &&& c.export.pdf_include_json_appendix
    &&& !c.export.pdf_company_logo
}

impl Default for Config {
    fn default() -> (c: Config)
        ensures
            is_default_config(c),
    {
        Config {
            technician: Technician::default(),
            ui: Ui::default(),
            collection: Collection::default(),
            export: Export::default(),
        }
    }
}

} // verus!
